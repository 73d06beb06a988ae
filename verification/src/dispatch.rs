use vstd::prelude::*;
use crate::color::{Rgb, LightCommand};
use crate::convert::{chroma_v_index, rgb_frame, yuv_to_rgb};
use crate::mapper::{color_to_light_command, spec_hue, spec_sat, spec_bri};
use crate::palette::{generate_palette_from_rgb_buffer, spec_palette_len, spec_samples};

verus! {

/// Kinds of light group the bridge reports; only rooms are offered for
/// selection.
#[derive(Debug, PartialEq, Eq, Clone, Copy, Structural)]
pub enum GroupKind {
    Room,
    Other,
}

/// A named group of controllable lights, fixed at startup.
pub struct LightGroup {
    pub name: String,
    pub kind: GroupKind,
    pub lights: Vec<usize>,
}

/// Whether a group is a room.
pub fn is_room(group: &LightGroup) -> (r: bool)
    ensures
        r == (group.kind is Room),
{
    match group.kind {
        GroupKind::Room => true,
        GroupKind::Other => false,
    }
}

/// A group is selected by a name when it is a room carrying exactly that name.
pub open spec fn group_matches(group: LightGroup, name: Seq<char>) -> bool {
    group.kind is Room && group.name@ == name
}

/// Relies on `str::eq`, the `==` operator of `str`: true exactly when the two
/// strings hold the same characters.
#[verifier::external_body]
fn str_eq(a: &str, b: &str) -> (r: bool)
    ensures
        r == (a@ == b@),
{
    a == b
}

/// Find the first room whose name is the given one.
pub fn select_group(groups: &Vec<LightGroup>, name: &str) -> (r: Option<usize>)
    ensures
        match r {
            Option::Some(i) => i < groups@.len() && group_matches(groups@[i as int], name@)
                && forall|j: int| 0 <= j < i ==> !group_matches(#[trigger] groups@[j], name@),
            Option::None => forall|j: int|
                0 <= j < groups@.len() ==> !group_matches(#[trigger] groups@[j], name@),
        },
{
    let mut i: usize = 0;
    while i < groups.len()
        invariant
            i <= groups@.len(),
            forall|j: int| 0 <= j < i ==> !group_matches(#[trigger] groups@[j], name@),
        decreases groups@.len() - i,
    {
        let g = &groups[i];
        if is_room(g) && str_eq(g.name.as_str(), name) {
            return Some(i);
        }
        i = i + 1;
    }
    None
}

/// The command owed to a palette color: its scaled HSL triple.
pub open spec fn spec_command(c: Rgb) -> LightCommand {
    LightCommand {
        hue: spec_hue(c.r as int, c.g as int, c.b as int) as u16,
        sat: spec_sat(c.r as int, c.g as int, c.b as int) as u8,
        bri: spec_bri(c.r as int, c.g as int, c.b as int) as u8,
    }
}

/// Entry `i` of a plan addresses light `i` with the command of palette
/// color `i`: strictly positional, no reassignment by color distance.
pub open spec fn plan_entry_ok(
    plan: Seq<(usize, LightCommand)>,
    palette: Seq<Rgb>,
    lights: Seq<usize>,
    i: int,
) -> bool {
    plan[i].0 == lights[i] && plan[i].1 == spec_command(palette[i])
}

/// Pair the palette positionally with the group's lights: one command per
/// palette color, sent to the light of the same index, never more commands
/// than there are palette colors or lights.
pub fn plan_cycle(palette: &Vec<Rgb>, lights: &Vec<usize>) -> (plan: Vec<(usize, LightCommand)>)
    ensures
        plan@.len() == if palette@.len() <= lights@.len() {
            palette@.len() as int
        } else {
            lights@.len() as int
        },
        forall|i: int| 0 <= i < plan@.len() ==> #[trigger] plan_entry_ok(
            plan@,
            palette@,
            lights@,
            i,
        ),
{
    let n = if palette.len() <= lights.len() {
        palette.len()
    } else {
        lights.len()
    };
    let mut plan: Vec<(usize, LightCommand)> = Vec::new();
    let mut i: usize = 0;
    while i < n
        invariant
            i <= n,
            n <= palette@.len(),
            n <= lights@.len(),
            plan@.len() == i as int,
            forall|j: int| 0 <= j < i ==> #[trigger] plan_entry_ok(plan@, palette@, lights@, j),
        decreases n - i,
    {
        let cmd = color_to_light_command(&palette[i]);
        let ghost plan_before = plan@;
        plan.push((lights[i], cmd));
        proof {
            assert(plan_entry_ok(plan@, palette@, lights@, i as int));
            assert forall|j: int| 0 <= j < i implies #[trigger] plan_entry_ok(
                plan@,
                palette@,
                lights@,
                j,
            ) by {
                assert(plan_entry_ok(plan_before, palette@, lights@, j));
            }
        }
        i = i + 1;
    }
    plan
}

/// The next send of a cycle is entry `i` of the plan, whatever became of any
/// earlier send: a failed send is logged and skipped, it neither aborts the
/// cycle nor changes what the remaining lights receive.
pub fn next_command(
    plan: &Vec<(usize, LightCommand)>,
    i: usize,
    previous_send_failed: bool,
) -> (r: Option<(usize, LightCommand)>)
    ensures
        r == if i < plan@.len() {
            Option::Some(plan@[i as int])
        } else {
            Option::None::<(usize, LightCommand)>
        },
{
    if i < plan.len() {
        Some(plan[i])
    } else {
        None
    }
}

/// A plan realizes a palette when it holds one entry per palette color, each
/// addressing the light of the same index with that color's command.
pub open spec fn plan_matches(
    plan: Seq<(usize, LightCommand)>,
    palette: Seq<Rgb>,
    lights: Seq<usize>,
) -> bool {
    &&& palette.len() == plan.len()
    &&& forall|i: int| 0 <= i < plan.len() ==> #[trigger] plan_entry_ok(plan, palette, lights, i)
}

/// How many commands one cycle sends: none without lights or when every
/// sampled pixel of the converted frame was filtered as overexposed, else one
/// per light, capped at the number of distinct surviving samples.
pub open spec fn spec_cycle_len(yuv: Seq<u8>, w: int, h: int, n_lights: int) -> int {
    if n_lights == 0 || spec_samples(rgb_frame(yuv, w, h)).len() == 0 {
        0
    } else {
        spec_palette_len(rgb_frame(yuv, w, h), n_lights)
    }
}

/// One cycle's whole computation: convert the captured frame, reduce it to at
/// most one color per light of the group, and pair the colors with the lights
/// positionally. Everything the cycle sends is decided here, before any
/// command goes out: as many commands as `spec_cycle_len` forces, each the
/// command of one color of the generated palette.
pub fn run_cycle(yuv_buffer: &Vec<u8>, width: usize, height: usize, lights: &Vec<usize>) -> (plan:
    Vec<(usize, LightCommand)>)
    requires
        3 * (width as int) * (height as int) <= usize::MAX as int,
        width > 0 && height > 0 ==> chroma_v_index(
            width as int - 1,
            height as int - 1,
            width as int,
            height as int,
        ) < yuv_buffer@.len(),
    ensures
        plan@.len() <= lights@.len(),
        plan@.len() == spec_cycle_len(
            yuv_buffer@,
            width as int,
            height as int,
            lights@.len() as int,
        ),
        forall|i: int| 0 <= i < plan@.len() ==> (#[trigger] plan@[i]).0 == lights@[i],
        exists|palette: Seq<Rgb>| #[trigger] plan_matches(plan@, palette, lights@),
{
    let rgb = yuv_to_rgb(yuv_buffer, width, height);
    let palette = generate_palette_from_rgb_buffer(&rgb, lights.len());
    let plan = plan_cycle(&palette, lights);
    proof {
        assert(forall|i: int|
            0 <= i < plan@.len() && plan_entry_ok(plan@, palette@, lights@, i)
                ==> (#[trigger] plan@[i]).0 == lights@[i]);
        assert(plan_matches(plan@, palette@, lights@));
    }
    plan
}

} // verus!
