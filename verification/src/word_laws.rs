//! What texts, names and fixed values mean.

use vstd::prelude::*;

use crate::display;
use crate::display::{ClipPlaneState, ShadingMode, Tint};
use crate::nsi_scene;
use crate::nsi_scene::{SetupModel, ValueModel};
use crate::order;
use crate::pick_laws;
use crate::previews;
use crate::previews::PreviewStatus;
use crate::settings;
use crate::text;

verus! {

/// A number below ten has one digit, and any other has the digits of its tens and
/// then that of its ones.
pub proof fn law_numbers_are_decimal(n: nat, d: nat)
    requires
        d < 10,
    ensures
        text::decimal(d).len() == 1,
        text::decimal(d)[0] as u32 == 48 + d,
        n > 0 ==> text::decimal(10 * n + d) == text::decimal(n) + text::decimal(d),
{
    if n > 0 {
        assert((10 * n + d) / 10 == n);
        assert((10 * n + d) % 10 == d);
        assert(text::decimal(10 * n + d) =~= text::decimal(n) + text::decimal(d));
    }
}

/// A negative number has a minus sign before the digits of its opposite.
pub proof fn law_negative_numbers_have_a_sign(n: nat)
    ensures
        text::signed_decimal(n as int) == text::decimal(n),
        n > 0 ==> text::signed_decimal(-n) == "-"@ + text::decimal(n),
{
    reveal_strlit("-");
    assert("-"@ =~= seq!['-']);
}

/// A digit behind a number multiplies it by ten and adds its own value.
pub proof fn law_digits_are_weighted(s: Seq<char>, c: char)
    ensures
        text::digits_value(s.push(c)) == 10 * text::digits_value(s) + (c as u32 - 48),
        text::digits_value(Seq::empty()) == 0,
{
    assert(s.push(c).drop_last() =~= s);
}

/// White space of any kind around a text is trimmed off.
pub proof fn law_white_space_is_trimmed(before: Seq<char>, s: Seq<char>, after: Seq<char>)
    requires
        forall|i: int| 0 <= i < before.len() ==> text::is_space(#[trigger] before[i]),
        forall|i: int| 0 <= i < after.len() ==> text::is_space(#[trigger] after[i]),
        s.len() > 0,
        !text::is_space(s[0]),
        !text::is_space(s[s.len() - 1]),
    ensures
        text::trim(before + s + after) == s,
{
    lemma_trimmed_before(before, s + after);
    lemma_trimmed_behind(s, after);
    assert(before + s + after =~= before + (s + after));
}

proof fn lemma_trimmed_before(before: Seq<char>, s: Seq<char>)
    requires
        forall|i: int| 0 <= i < before.len() ==> text::is_space(#[trigger] before[i]),
        s.len() > 0,
        !text::is_space(s[0]),
    ensures
        text::trim_start(before + s) == s,
    decreases before.len(),
{
    if before.len() == 0 {
        assert(before + s =~= s);
    } else {
        assert(text::is_space(before[0]));
        assert((before + s).drop_first() =~= before.drop_first() + s);
        lemma_trimmed_before(before.drop_first(), s);
    }
}

proof fn lemma_trimmed_behind(s: Seq<char>, after: Seq<char>)
    requires
        forall|i: int| 0 <= i < after.len() ==> text::is_space(#[trigger] after[i]),
        s.len() > 0,
        !text::is_space(s[s.len() - 1]),
    ensures
        text::trim_end(s + after) == s,
    decreases after.len(),
{
    if after.len() == 0 {
        assert(s + after =~= s);
    } else {
        assert(text::is_space(after[after.len() - 1]));
        assert((s + after).drop_last() =~= s + after.drop_last());
        lemma_trimmed_behind(s, after.drop_last());
    }
}

/// Blanks, tabs and ends of lines are white space, and so are those blanks that
/// are no ASCII. No letter, digit or sign of ASCII is.
pub proof fn law_white_space_prints_nothing(c: char)
    ensures
        c == ' ' || c == '\t' || c == '\n' || c == '\r' || c == '\u{a0}' || c == '\u{3000}'
            ==> text::is_space(c),
        '!' <= c <= '~' ==> !text::is_space(c),
        c < '\t' ==> !text::is_space(c),
{
}

/// The name with the ending behind it.
pub open spec fn with_ending(stem: Seq<char>, ending: Seq<char>) -> Seq<char> {
    stem + ending
}

/// A lower case name is that of a STEP file if and only if it ends in one of the
/// two endings.
pub proof fn law_step_files_have_endings(name: Seq<char>)
    ensures
        previews::is_step_name(name + ".step"@),
        previews::is_step_name(name + ".stp"@),
        previews::is_step_name(name) ==> (exists|stem: Seq<char>|
            name == #[trigger] with_ending(stem, ".step"@)) || (exists|stem: Seq<char>|
            name == #[trigger] with_ending(stem, ".stp"@)),
{
    let a = name + ".step"@;
    let b = name + ".stp"@;
    assert(a.skip(name.len() as int) =~= ".step"@);
    assert(b.skip(name.len() as int) =~= ".stp"@);
    if previews::ends_with(name, ".step"@) {
        let stem = name.take(name.len() - ".step"@.len());
        assert(name =~= with_ending(stem, ".step"@));
    } else if previews::ends_with(name, ".stp"@) {
        let stem = name.take(name.len() - ".stp"@.len());
        assert(name =~= with_ending(stem, ".stp"@));
    }
}

/// Texts are ordered by the first character in which they differ, and a text
/// comes before those that it begins.
pub proof fn law_texts_are_ordered(start: Seq<char>, a: Seq<char>, b: Seq<char>)
    ensures
        previews::before(start, start + b) <==> b.len() > 0,
        !previews::before(start + b, start),
        a.len() > 0 && b.len() > 0 && a[0] != b[0] ==> (previews::before(start + a, start + b)
            <==> a[0] < b[0]),
    decreases start.len(),
{
    if start.len() == 0 {
        assert(start + a =~= a);
        assert(start + b =~= b);
    } else {
        let rest = start.drop_first();
        law_texts_are_ordered(rest, a, b);
        assert((start + a).drop_first() =~= rest + a);
        assert((start + b).drop_first() =~= rest + b);
    }
}

/// In a listing no name stands behind one that it comes before, and names that
/// are the same stand as they were given.
pub proof fn law_listing_is_sorted(places: Seq<usize>, keys: Seq<Seq<char>>, i: int, j: int)
    requires
        previews::in_order(places, keys),
        0 <= i < j < places.len(),
    ensures
        !previews::before(keys[places[j] as int], keys[places[i] as int]),
        keys[places[i] as int] == keys[places[j] as int] ==> places[i] < places[j],
{
    let a = keys[places[i] as int];
    let b = keys[places[j] as int];
    lemma_one_order(a, b);
    lemma_one_order(a, a);
}

proof fn lemma_one_order(a: Seq<char>, b: Seq<char>)
    ensures
        !(previews::before(a, b) && previews::before(b, a)),
    decreases a.len(),
{
    if a.len() > 0 && b.len() > 0 && a[0] == b[0] {
        lemma_one_order(a.drop_first(), b.drop_first());
    }
}

proof fn lemma_distinct<A>(s: Seq<A>, n: int)
    requires
        0 <= n <= s.len(),
    ensures
        pick_laws::picks(
            order::distinct(s.take(n)),
            n,
            |i: int| !s.take(i).contains(s[i]),
            |i: int| s[i],
        ),
    decreases n,
{
    let chosen = |i: int| !s.take(i).contains(s[i]);
    let item = |i: int| s[i];
    if n == 0 {
        pick_laws::lemma_picks_none(chosen, item);
    } else {
        lemma_distinct(s, n - 1);
        assert(s.take(n).drop_last() =~= s.take(n - 1));
        order::lemma_distinct(s.take(n - 1));
        pick_laws::lemma_picks_next(order::distinct(s.take(n - 1)), n - 1, chosen, item);
    }
}

/// The distinct items are those that do not stand before, in their order.
pub proof fn law_first_of_each_stays<A>(s: Seq<A>)
    ensures
        pick_laws::picks(
            order::distinct(s),
            s.len() as int,
            |i: int| !s.take(i).contains(s[i]),
            |i: int| s[i],
        ),
{
    lemma_distinct(s, s.len() as int);
    assert(s.take(s.len() as int) =~= s);
}

/// Only two styles of shading let through what is behind a face, and these show
/// the backs of faces too. No two styles look the same.
pub proof fn law_styles_of_shading_differ(a: ShadingMode, b: ShadingMode)
    ensures
        a != b ==> display::look_of(a) != display::look_of(b),
        display::look_of(a).opaque <==> a != ShadingMode::XRay && a != ShadingMode::Wireframe,
        display::look_of(a).cull_back <==> display::look_of(a).opaque,
        display::look_of(a).tint == Tint::White <==> display::look_of(a).opaque,
        display::look_of(ShadingMode::XRay).tint == Tint::Glass,
        display::look_of(a).matcap <==> a == ShadingMode::Matcap,
        display::look_of(a).flags == 0 <==> a != ShadingMode::Flat && a != ShadingMode::Matcap,
{
}

/// A plane that is off cuts along its axis after one click, against it after two,
/// and is off again after three.
pub proof fn law_clicks_turn_plane(plane: ClipPlaneState)
    requires
        !plane.enabled,
    ensures
        plane.next().enabled && !plane.next().flip,
        plane.next().next().enabled && plane.next().next().flip,
        !plane.next().next().next().enabled,
{
}

/// The path is the first argument that is none of the options.
pub proof fn law_first_plain_argument_is_the_path(args: Seq<String>)
    ensures
        ({
            let at = settings::first_path(args);
            &&& 0 <= at <= args.len()
            &&& forall|i: int| 0 <= i < at ==> is_option((#[trigger] args[i])@)
            &&& at < args.len() ==> !is_option(args[at]@)
        }),
    decreases args.len(),
{
    if args.len() > 0 && is_option(args[0]@) {
        let rest = args.drop_first();
        law_first_plain_argument_is_the_path(rest);
        assert forall|i: int| 0 <= i < settings::first_path(args) implies is_option(
            (#[trigger] args[i])@,
        ) by {
            if i > 0 {
                assert(args[i] == rest[i - 1]);
            }
        }
    }
}

pub open spec fn is_option(arg: Seq<char>) -> bool {
    arg == "-h"@ || arg == "--help"@ || arg == "-v"@ || arg == "--verbose"@
}

/// A preview that has failed tells why, one that is not ready yet that it loads,
/// and one that is ready only that, unless it is rendered.
pub proof fn law_previews_tell_their_state<D>(ready: D, reason: String, has_slot: bool)
    ensures
        previews::caption::<D>(PreviewStatus::Failed(reason), has_slot) == Some(reason@),
        previews::caption::<D>(PreviewStatus::Pending, has_slot) == previews::caption::<D>(
            PreviewStatus::Loading,
            has_slot,
        ),
        previews::caption::<D>(PreviewStatus::Loading, has_slot) == Some("Loading\u{2026}"@),
        previews::caption(PreviewStatus::Ready(ready), true) is None,
        previews::caption(PreviewStatus::Ready(ready), false) == Some("Ready"@),
{
}

/// The nodes of every scene: what each is, what it belongs to and which values it
/// has.
pub proof fn law_scene_is_set_up()
    ensures
        ({
            let steps = nsi_scene::camera_setup() + nsi_scene::output_setup()
                + nsi_scene::light_setup();
            &&& steps.len() == 33
            &&& steps.contains(SetupModel::Create("mstpv_camera_xform"@, "transform"@))
            &&& steps.contains(SetupModel::Connect("mstpv_camera_xform"@, ".root"@, "objects"@))
            &&& steps.contains(SetupModel::Create("mstpv_camera"@, "perspectivecamera"@))
            &&& steps.contains(SetupModel::Connect("mstpv_camera"@, "mstpv_camera_xform"@, "objects"@))
            &&& steps.contains(SetupModel::Assign("mstpv_camera"@, "fov"@, ValueModel::Real("45"@)))
            &&& steps.contains(SetupModel::Create("mstpv_screen"@, "screen"@))
            &&& steps.contains(SetupModel::Connect("mstpv_screen"@, "mstpv_camera"@, "screens"@))
            &&& steps.contains(SetupModel::Assign("mstpv_screen"@, "resolution"@, ValueModel::TwoWhole(1024, 1024)))
            &&& steps.contains(SetupModel::Assign("mstpv_screen"@, "oversampling"@, ValueModel::Whole(16)))
            &&& steps.contains(SetupModel::Create("mstpv_beauty"@, "outputlayer"@))
            &&& steps.contains(SetupModel::Assign("mstpv_beauty"@, "variablename"@, ValueModel::Text("Ci"@)))
            &&& steps.contains(SetupModel::Assign("mstpv_beauty"@, "withalpha"@, ValueModel::Whole(1)))
            &&& steps.contains(SetupModel::Assign("mstpv_beauty"@, "scalarformat"@, ValueModel::Text("uint8"@)))
            &&& steps.contains(SetupModel::Assign("mstpv_beauty"@, "colorprofile"@, ValueModel::Text("srgb"@)))
            &&& steps.contains(SetupModel::Connect("mstpv_beauty"@, "mstpv_screen"@, "outputlayers"@))
            &&& steps.contains(SetupModel::Create("mstpv_driver"@, "outputdriver"@))
            &&& steps.contains(SetupModel::Connect("mstpv_driver"@, "mstpv_beauty"@, "outputdrivers"@))
            &&& steps.contains(SetupModel::Assign("mstpv_driver"@, "drivername"@, ValueModel::Text("idisplay"@)))
            &&& steps.contains(SetupModel::Assign("mstpv_driver"@, "imagefilename"@, ValueModel::Text("mstpv_nsi"@)))
            &&& steps.contains(SetupModel::Create("mstpv_shader"@, "shader"@))
            &&& steps.contains(SetupModel::Assign("mstpv_shader"@, "shaderfilename"@, ValueModel::Text("${DELIGHT}/osl/dlPrincipled"@)))
            &&& steps.contains(SetupModel::Assign("mstpv_shader"@, "i_color"@, ValueModel::Grey("0.8"@)))
            &&& steps.contains(SetupModel::Assign("mstpv_shader"@, "roughness"@, ValueModel::Real("0.3"@)))
            &&& steps.contains(SetupModel::Create("mstpv_env"@, "environment"@))
            &&& steps.contains(SetupModel::Connect("mstpv_env"@, ".root"@, "objects"@))
            &&& steps.contains(SetupModel::Create("mstpv_env_attrib"@, "attributes"@))
            &&& steps.contains(SetupModel::Connect("mstpv_env_attrib"@, "mstpv_env"@, "geometryattributes"@))
            &&& steps.contains(SetupModel::Assign("mstpv_env_attrib"@, "visibility.camera"@, ValueModel::Whole(0)))
            &&& steps.contains(SetupModel::Create("mstpv_env_shader"@, "shader"@))
            &&& steps.contains(SetupModel::Connect("mstpv_env_shader"@, "mstpv_env_attrib"@, "surfaceshader"@))
            &&& steps.contains(SetupModel::Assign("mstpv_env_shader"@, "shaderfilename"@, ValueModel::Text("${DELIGHT}/osl/environmentLight"@)))
            &&& steps.contains(SetupModel::Assign("mstpv_env_shader"@, "image"@, ValueModel::EnvironmentImage))
            &&& steps.contains(SetupModel::Assign("mstpv_env_shader"@, "intensity"@, ValueModel::Real("1"@)))
        }),
{
    let camera = nsi_scene::camera_setup();
    let output = nsi_scene::output_setup();
    let light = nsi_scene::light_setup();
    let steps = camera + output + light;
    assert(steps[0] == SetupModel::Create("mstpv_camera_xform"@, "transform"@));
    assert(steps[1] == SetupModel::Connect("mstpv_camera_xform"@, ".root"@, "objects"@));
    assert(steps[2] == SetupModel::Create("mstpv_camera"@, "perspectivecamera"@));
    assert(steps[3] == SetupModel::Connect("mstpv_camera"@, "mstpv_camera_xform"@, "objects"@));
    assert(steps[4] == SetupModel::Assign("mstpv_camera"@, "fov"@, ValueModel::Real("45"@)));
    assert(steps[5] == SetupModel::Create("mstpv_screen"@, "screen"@));
    assert(steps[6] == SetupModel::Connect("mstpv_screen"@, "mstpv_camera"@, "screens"@));
    assert(steps[7] == SetupModel::Assign("mstpv_screen"@, "resolution"@, ValueModel::TwoWhole(1024, 1024)));
    assert(steps[8] == SetupModel::Assign("mstpv_screen"@, "oversampling"@, ValueModel::Whole(16)));
    assert(steps[9] == SetupModel::Create("mstpv_beauty"@, "outputlayer"@));
    assert(steps[10] == SetupModel::Assign("mstpv_beauty"@, "variablename"@, ValueModel::Text("Ci"@)));
    assert(steps[11] == SetupModel::Assign("mstpv_beauty"@, "withalpha"@, ValueModel::Whole(1)));
    assert(steps[12] == SetupModel::Assign("mstpv_beauty"@, "scalarformat"@, ValueModel::Text("uint8"@)));
    assert(steps[13] == SetupModel::Assign("mstpv_beauty"@, "colorprofile"@, ValueModel::Text("srgb"@)));
    assert(steps[14] == SetupModel::Connect("mstpv_beauty"@, "mstpv_screen"@, "outputlayers"@));
    assert(steps[15] == SetupModel::Create("mstpv_driver"@, "outputdriver"@));
    assert(steps[16] == SetupModel::Connect("mstpv_driver"@, "mstpv_beauty"@, "outputdrivers"@));
    assert(steps[17] == SetupModel::Assign("mstpv_driver"@, "drivername"@, ValueModel::Text("idisplay"@)));
    assert(steps[18] == SetupModel::Assign("mstpv_driver"@, "imagefilename"@, ValueModel::Text("mstpv_nsi"@)));
    assert(steps[19] == SetupModel::Create("mstpv_shader"@, "shader"@));
    assert(steps[20] == SetupModel::Assign("mstpv_shader"@, "shaderfilename"@, ValueModel::Text("${DELIGHT}/osl/dlPrincipled"@)));
    assert(steps[21] == SetupModel::Assign("mstpv_shader"@, "i_color"@, ValueModel::Grey("0.8"@)));
    assert(steps[22] == SetupModel::Assign("mstpv_shader"@, "roughness"@, ValueModel::Real("0.3"@)));
    assert(steps[23] == SetupModel::Create("mstpv_env"@, "environment"@));
    assert(steps[24] == SetupModel::Connect("mstpv_env"@, ".root"@, "objects"@));
    assert(steps[25] == SetupModel::Create("mstpv_env_attrib"@, "attributes"@));
    assert(steps[26] == SetupModel::Connect("mstpv_env_attrib"@, "mstpv_env"@, "geometryattributes"@));
    assert(steps[27] == SetupModel::Assign("mstpv_env_attrib"@, "visibility.camera"@, ValueModel::Whole(0)));
    assert(steps[28] == SetupModel::Create("mstpv_env_shader"@, "shader"@));
    assert(steps[29] == SetupModel::Connect("mstpv_env_shader"@, "mstpv_env_attrib"@, "surfaceshader"@));
    assert(steps[30] == SetupModel::Assign("mstpv_env_shader"@, "shaderfilename"@, ValueModel::Text("${DELIGHT}/osl/environmentLight"@)));
    assert(steps[31] == SetupModel::Assign("mstpv_env_shader"@, "image"@, ValueModel::EnvironmentImage));
    assert(steps[32] == SetupModel::Assign("mstpv_env_shader"@, "intensity"@, ValueModel::Real("1"@)));
}

} // verus!
