use vstd::prelude::*;
use vstd::arithmetic::div_mod::lemma_fundamental_div_mod;
use vstd::seq_lib::seq_to_set_is_finite;
use vstd::set_lib::lemma_len_subset;
use crate::color::Rgb;

verus! {

/// A sampled pixel is dropped as overexposed when all three channels lie
/// strictly above the fixed near-white threshold.
pub open spec fn is_overexposed(r: u8, g: u8, b: u8) -> bool {
    r > 240 && g > 240 && b > 240
}

/// The surviving samples among the first `n` pixels of an interleaved RGB
/// buffer: every third pixel is examined and overexposed pixels are dropped,
/// in buffer order.
pub open spec fn samples_upto(buf: Seq<u8>, n: int) -> Seq<Rgb>
    decreases n,
{
    if n <= 0 {
        Seq::<Rgb>::empty()
    } else {
        let i = n - 1;
        let prev = samples_upto(buf, i);
        if i % 3 == 0 && !is_overexposed(buf[3 * i], buf[3 * i + 1], buf[3 * i + 2]) {
            prev.push(Rgb { r: buf[3 * i], g: buf[3 * i + 1], b: buf[3 * i + 2] })
        } else {
            prev
        }
    }
}

/// All surviving samples of the buffer.
pub open spec fn spec_samples(buf: Seq<u8>) -> Seq<Rgb> {
    samples_upto(buf, buf.len() as int / 3)
}

/// How many colors a palette for this buffer holds when `num_colors` are
/// asked for and at least one sample survives: the request, capped at the
/// number of distinct surviving samples — fewer distinct colors than lights
/// yield that smaller number, never invented colors.
pub open spec fn spec_palette_len(buf: Seq<u8>, num_colors: int) -> int {
    let k = spec_samples(buf).to_set().len() as int;
    if num_colors <= k {
        num_colors
    } else {
        k
    }
}

/// Whether a color occurs in the vector.
fn contains_rgb(v: &Vec<Rgb>, c: Rgb) -> (r: bool)
    ensures
        r == v@.contains(c),
{
    let mut j: usize = 0;
    while j < v.len()
        invariant
            j <= v@.len(),
            forall|q: int| 0 <= q < j ==> v@[q] != c,
        decreases v@.len() - j,
    {
        if v[j] == c {
            return true;
        }
        j = j + 1;
    }
    false
}

/// The number of distinct colors among `colors`, capped at `cap`: walk the
/// colors, collecting first occurrences, and stop once `cap` are in hand.
fn count_distinct_capped(colors: &Vec<Rgb>, cap: usize) -> (m: usize)
    requires
        cap >= 1,
    ensures
        m as int == if cap as int <= colors@.to_set().len() as int {
            cap as int
        } else {
            colors@.to_set().len() as int
        },
        colors@.len() > 0 ==> m >= 1,
{
    let mut dvec: Vec<Rgb> = Vec::new();
    let mut i: usize = 0;
    proof {
        assert(colors@.take(0) =~= Seq::<Rgb>::empty());
        assert(dvec@.to_set() =~= colors@.take(0).to_set());
    }
    while i < colors.len() && dvec.len() < cap
        invariant
            i <= colors@.len(),
            dvec@.len() <= cap,
            i > 0 ==> dvec@.len() >= 1,
            dvec@.no_duplicates(),
            dvec@.to_set().subset_of(colors@.take(i as int).to_set()),
            dvec@.len() == cap || dvec@.to_set() == colors@.take(i as int).to_set(),
        decreases colors@.len() - i,
    {
        let c = colors[i];
        let ghost dvec_before = dvec@;
        let ghost prefix = colors@.take(i as int);
        if !contains_rgb(&dvec, c) {
            dvec.push(c);
            proof {
                assert forall|p: int, q: int| 0 <= p < q < dvec@.len() implies dvec@[p]
                    != dvec@[q] by {
                    if q == dvec@.len() - 1 {
                        assert(!dvec_before.contains(dvec@[q]));
                    }
                }
            }
        }
        proof {
            assert(colors@.take(i as int + 1) =~= prefix.push(colors@[i as int]));
            prefix.lemma_push_to_set_commute(colors@[i as int]);
            if dvec_before.contains(c) {
                assert(prefix.to_set().contains(c));
                assert(prefix.to_set().insert(c) =~= prefix.to_set());
            } else {
                assert(dvec@ =~= dvec_before.push(c));
                dvec_before.lemma_push_to_set_commute(c);
                if dvec_before.to_set() == prefix.to_set() {
                    assert(dvec@.to_set() =~= colors@.take(i as int + 1).to_set());
                }
            }
            assert(dvec@.to_set().subset_of(colors@.take(i as int + 1).to_set()));
        }
        i = i + 1;
    }
    proof {
        dvec@.unique_seq_to_set();
        seq_to_set_is_finite(colors@);
        assert(colors@.take(colors@.len() as int) =~= colors@);
        if dvec@.len() == cap {
            assert forall|a: Rgb| colors@.take(i as int).to_set().contains(a)
                implies colors@.to_set().contains(a) by {
                let j = choose|j: int| 0 <= j < i && colors@.take(i as int)[j] == a;
                assert(colors@[j] == a);
            }
            lemma_len_subset(dvec@.to_set(), colors@.to_set());
        } else {
            assert(i == colors@.len());
            assert(dvec@.to_set() == colors@.to_set());
        }
        if colors@.len() > 0 {
            assert(i > 0 || dvec@.len() == cap);
        }
    }
    dvec.len()
}

/// Relies on exoquant's `generate_palette` with `SimpleColorSpace` and the
/// no-op optimizer: the quantizer starts with one node, each step splits one
/// node into two until the requested count is reached, and one color is
/// emitted per node, so the returned palette holds exactly `num_colors`
/// colors for a positive request. Which colors they are depends on the
/// iteration order of the histogram's hash map, so nothing more is assumed.
#[verifier::external_body]
fn quantize_samples(samples: &Vec<Rgb>, num_colors: usize) -> (palette: Vec<Rgb>)
    requires
        num_colors >= 1,
    ensures
        palette@.len() == num_colors as int,
{
    let hist: exoquant::Histogram = samples
        .iter()
        .map(|c| exoquant::Color::new(c.r, c.g, c.b, 255))
        .collect();
    let pal = exoquant::generate_palette(
        &hist,
        &exoquant::SimpleColorSpace::default(),
        &exoquant::optimizer::None,
        num_colors,
    );
    pal.into_iter().map(|c| Rgb { r: c.r, g: c.g, b: c.b }).collect()
}

/// Build a palette of at most `num_colors` representative colors from an
/// interleaved RGB buffer. Every third pixel is sampled, overexposed samples
/// are dropped, and the surviving samples are reduced in a perceptual color
/// space. A request for zero colors or an empty surviving sample set yields
/// an empty palette with no clustering work; otherwise the palette holds the
/// requested count, capped at the number of distinct surviving samples —
/// fewer distinct colors than requested give that smaller number.
pub fn generate_palette_from_rgb_buffer(buffer: &Vec<u8>, num_colors: usize) -> (palette: Vec<
    Rgb,
>)
    ensures
        palette@.len() <= num_colors,
        num_colors == 0 ==> palette@.len() == 0,
        spec_samples(buffer@).len() == 0 ==> palette@.len() == 0,
        num_colors >= 1 && spec_samples(buffer@).len() > 0 ==> palette@.len()
            == spec_palette_len(buffer@, num_colors as int),
{
    let mut colors: Vec<Rgb> = Vec::new();
    let buf_len: usize = buffer.len();
    let n_pixels: usize = buf_len / 3;
    proof {
        lemma_fundamental_div_mod(buffer@.len() as int, 3);
    }
    let mut i: usize = 0;
    while i < n_pixels
        invariant
            i <= n_pixels,
            buf_len == buffer@.len(),
            n_pixels == buffer@.len() as int / 3,
            3 * (n_pixels as int) <= buf_len as int,
            colors@ == samples_upto(buffer@, i as int),
        decreases n_pixels - i,
    {
        if i % 3 == 0 {
            let r = buffer[3 * i];
            let g = buffer[3 * i + 1];
            let b = buffer[3 * i + 2];
            if !(r > 240 && g > 240 && b > 240) {
                colors.push(Rgb { r, g, b });
            }
        }
        i = i + 1;
    }
    if num_colors == 0 || colors.len() == 0 {
        Vec::new()
    } else {
        let m = count_distinct_capped(&colors, num_colors);
        quantize_samples(&colors, m)
    }
}

} // verus!
