//! What a written scene says, line by line.

use vstd::prelude::*;

use crate::nsi_export;
use crate::nsi_export::{ExportShell, NsiBrepSurfaceData, NsiBrepTrimData, NsiValue, RealText};
use crate::text;

verus! {

/// What was written behind the old text holds the line.
pub open spec fn says(old: Seq<char>, new: Seq<char>, line: Seq<char>) -> bool {
    exists|i: int| says_at(old, new, line, i)
}

pub open spec fn says_at(old: Seq<char>, new: Seq<char>, line: Seq<char>, i: int) -> bool {
    old.len() <= i && i + line.len() <= new.len() && new.subrange(i, i + line.len()) == line
}

proof fn lemma_says_last(old: Seq<char>, before: Seq<char>, line: Seq<char>, new: Seq<char>)
    requires
        old.len() <= before.len(),
        new == before + line,
    ensures
        says(old, new, line),
        before.is_prefix_of(new),
{
    assert(new.subrange(before.len() as int, before.len() as int + line.len()) =~= line);
    assert(says_at(old, new, line, before.len() as int));
    assert(new.take(before.len() as int) =~= before);
}

proof fn lemma_says_still(old: Seq<char>, before: Seq<char>, line: Seq<char>, new: Seq<char>)
    requires
        before.is_prefix_of(new),
        says(old, before, line),
    ensures
        says(old, new, line),
{
    let i = choose|i: int| says_at(old, before, line, i);
    assert(new.subrange(i, i + line.len()) =~= before.subrange(i, i + line.len()));
    assert(says_at(old, new, line, i));
}

proof fn lemma_joined(a: Seq<char>, b: Seq<char>, c: Seq<char>)
    ensures
        a + b + c == a + (b + c),
{
    assert(a + b + c =~= a + (b + c));
}

proof fn lemma_prefixes(a: Seq<char>, b: Seq<char>, c: Seq<char>)
    requires
        a.is_prefix_of(b),
        b.is_prefix_of(c),
    ensures
        a.is_prefix_of(c),
{
    assert(c.take(a.len() as int) =~= b.take(a.len() as int));
}

pub open spec fn create_text(handle: Seq<char>, kind: Seq<char>) -> Seq<char> {
    "Create \""@ + handle + "\" \""@ + kind + "\"\n"@
}

pub open spec fn connect_text(from: Seq<char>, to: Seq<char>, slot: Seq<char>) -> Seq<char> {
    "Connect \""@ + from + "\" \"\" \""@ + to + "\" \""@ + slot + "\"\n"@
}

pub open spec fn set_text(handle: Seq<char>) -> Seq<char> {
    "SetAttribute \""@ + handle + "\"\n"@
}

pub open spec fn value_text(name: Seq<char>, kind: Seq<char>, value: Seq<char>) -> Seq<char> {
    "  \""@ + name + "\" \""@ + kind + "\" 1 "@ + value + "\n"@
}

/// The values with one space before each.
pub open spec fn values_of<T: NsiValue>(values: Seq<T>) -> Seq<char>
    decreases values.len(),
{
    if values.len() == 0 {
        Seq::empty()
    } else {
        " "@ + values[0].nsi_text() + values_of(values.skip(1))
    }
}

pub open spec fn list_text<T: NsiValue>(
    name: Seq<char>,
    kind: Seq<char>,
    values: Seq<T>,
) -> Seq<char> {
    "  \""@ + name + "\" \""@ + kind + "\" "@ + text::decimal(values.len()) + " ["@ + values_of(
        values,
    ) + " ]\n"@
}

proof fn lemma_create(out: Seq<char>, handle: Seq<char>, kind: Seq<char>)
    ensures
        nsi_export::create_line(out, handle, kind) == out + create_text(handle, kind),
{
    assert(nsi_export::create_line(out, handle, kind) =~= out + create_text(handle, kind));
}

proof fn lemma_connect(out: Seq<char>, from: Seq<char>, to: Seq<char>, slot: Seq<char>)
    ensures
        nsi_export::connect_line(out, from, to, slot) == out + connect_text(from, to, slot),
{
    assert(nsi_export::connect_line(out, from, to, slot) =~= out + connect_text(from, to, slot));
}

proof fn lemma_value(out: Seq<char>, name: Seq<char>, kind: Seq<char>, value: Seq<char>)
    ensures
        nsi_export::scalar_line(out, name, kind, value) == out + value_text(name, kind, value),
{
    assert(nsi_export::scalar_line(out, name, kind, value) =~= out + value_text(name, kind, value));
}

/// A character that stands for itself between quotes.
pub open spec fn is_plain(c: char) -> bool {
    c != '"' && c != '\\'
}

pub open spec fn are_plain(s: Seq<char>) -> bool {
    forall|i: int| 0 <= i < s.len() ==> is_plain(#[trigger] s[i])
}

/// A text without quotes and backslashes is written as it is.
pub proof fn law_plain_text_stays(s: Seq<char>)
    requires
        are_plain(s),
    ensures
        nsi_export::escaped(s) == s,
    decreases s.len(),
{
    if s.len() > 0 {
        assert(is_plain(s[s.len() - 1]));
        assert(is_plain(s[0]));
        assert(are_plain(s.drop_last())) by {
            assert forall|i: int| 0 <= i < s.drop_last().len() implies is_plain(
                #[trigger] s.drop_last()[i],
            ) by {
                assert(is_plain(s[i]));
            }
        }
        assert(are_plain(s.drop_first())) by {
            assert forall|i: int| 0 <= i < s.drop_first().len() implies is_plain(
                #[trigger] s.drop_first()[i],
            ) by {
                assert(is_plain(s[i + 1]));
            }
        }
        law_plain_text_stays(s.drop_last());
        law_plain_text_stays(s.drop_first());
    }
    assert(nsi_export::escaped(s) =~= s);
}

proof fn lemma_set(out: Seq<char>, handle: Seq<char>)
    requires
        are_plain(handle),
    ensures
        nsi_export::set_attribute_line(out, handle) == out + set_text(handle),
{
    law_plain_text_stays(handle);
    assert(nsi_export::set_attribute_line(out, handle) =~= out + set_text(handle));
}

proof fn lemma_word(out: Seq<char>, name: Seq<char>, value: Seq<char>)
    requires
        are_plain(value),
    ensures
        nsi_export::string_line(out, name, value) == out + value_text(
            name,
            "string"@,
            "\""@ + value + "\""@,
        ),
{
    law_plain_text_stays(value);
    reveal_strlit("\" \"string\" 1 \"");
    reveal_strlit("\" \"");
    reveal_strlit("string");
    reveal_strlit("\" 1 ");
    reveal_strlit("\"");
    reveal_strlit("\"\n");
    reveal_strlit("\n");
    assert("\" \"string\" 1 \""@ =~= "\" \""@ + "string"@ + "\" 1 "@ + "\""@);
    assert("\"\n"@ =~= "\""@ + "\n"@);
    assert(nsi_export::string_line(out, name, value) =~= out + value_text(
        name,
        "string"@,
        "\""@ + value + "\""@,
    ));
}

proof fn lemma_values_push<T: NsiValue>(values: Seq<T>)
    requires
        values.len() > 0,
    ensures
        values_of(values) == values_of(values.drop_last()) + " "@ + values.last().nsi_text(),
    decreases values.len(),
{
    let rest = values.skip(1);
    if values.len() == 1 {
        assert(values_of(rest) =~= Seq::empty());
        assert(values_of(values.drop_last()) =~= Seq::empty());
        assert(values_of(values) =~= " "@ + values[0].nsi_text());
        assert(values_of(values.drop_last()) + " "@ + values.last().nsi_text() =~= " "@
            + values[0].nsi_text());
    } else {
        lemma_values_push(rest);
        let init = values.drop_last();
        assert(init.skip(1) =~= rest.drop_last());
        assert(values_of(init) == " "@ + values[0].nsi_text() + values_of(rest.drop_last()));
        assert(values_of(values) =~= values_of(init) + " "@ + values.last().nsi_text());
    }
}

proof fn lemma_values<T: NsiValue>(out: Seq<char>, values: Seq<T>)
    ensures
        nsi_export::values_text(out, values) == out + values_of(values),
    decreases values.len(),
{
    if values.len() > 0 {
        lemma_values(out, values.drop_last());
        lemma_values_push(values);
        assert(nsi_export::values_text(out, values) =~= out + values_of(values));
    } else {
        assert(out + values_of(values) =~= out);
    }
}

proof fn lemma_list<T: NsiValue>(out: Seq<char>, name: Seq<char>, kind: Seq<char>, values: Seq<T>)
    ensures
        nsi_export::slice_line(out, name, kind, values) == out + list_text(name, kind, values),
{
    lemma_values(
        out + "  \""@ + name + "\" \""@ + kind + "\" "@ + text::decimal(values.len()) + " ["@,
        values,
    );
    assert(nsi_export::slice_line(out, name, kind, values) =~= out + list_text(name, kind, values));
}

proof fn lemma_any_word(out: Seq<char>, name: Seq<char>, value: Seq<char>)
    ensures
        nsi_export::string_line(out, name, value) == out + value_text(
            name,
            "string"@,
            "\""@ + nsi_export::escaped(value) + "\""@,
        ),
{
    reveal_strlit("\" \"string\" 1 \"");
    reveal_strlit("\" \"");
    reveal_strlit("string");
    reveal_strlit("\" 1 ");
    reveal_strlit("\"");
    reveal_strlit("\"\n");
    reveal_strlit("\n");
    assert("\" \"string\" 1 \""@ =~= "\" \""@ + "string"@ + "\" 1 "@ + "\""@);
    assert("\"\n"@ =~= "\""@ + "\n"@);
    assert(nsi_export::string_line(out, name, value) =~= out + value_text(
        name,
        "string"@,
        "\""@ + nsi_export::escaped(value) + "\""@,
    ));
}

proof fn lemma_fixed_colour(out: Seq<char>)
    ensures
        nsi_export::fixed_color_line(out, "i_color"@, "0.8"@) == out
            + "  \"i_color\" \"color\" 1 [ 0.8 0.8 0.8 ]\n"@,
{
    reveal_strlit("  \"");
    reveal_strlit("i_color");
    reveal_strlit("\" \"color\" 1 [");
    reveal_strlit(" ");
    reveal_strlit("0.8");
    reveal_strlit(" ]\n");
    reveal_strlit("  \"i_color\" \"color\" 1 [ 0.8 0.8 0.8 ]\n");
    assert(nsi_export::fixed_color_line(out, "i_color"@, "0.8"@) =~= out
        + "  \"i_color\" \"color\" 1 [ 0.8 0.8 0.8 ]\n"@);
}

proof fn lemma_small_number_0()
    ensures
        text::signed_decimal(0) == "0"@,
{
    reveal_strlit("0");
    reveal_with_fuel(text::decimal, 3);
    assert(text::signed_decimal(0) =~= "0"@);
}

proof fn lemma_small_number_1()
    ensures
        text::signed_decimal(1) == "1"@,
{
    reveal_strlit("1");
    reveal_with_fuel(text::decimal, 3);
    assert(text::signed_decimal(1) =~= "1"@);
}

proof fn lemma_small_number_16()
    ensures
        text::signed_decimal(16) == "16"@,
{
    reveal_strlit("16");
    reveal_with_fuel(text::decimal, 3);
    assert(text::signed_decimal(16) =~= "16"@);
}

proof fn lemma_word_ci(out: Seq<char>)
    ensures
        nsi_export::string_line(out, "variablename"@, "Ci"@) == out + value_text("variablename"@, "string"@, "\"Ci\""@),
{
    reveal_strlit("Ci");
    lemma_word(out, "variablename"@, "Ci"@);
    reveal_strlit("\"");
    reveal_strlit("\"Ci\"");
    assert("\"Ci\""@ =~= "\""@ + "Ci"@ + "\""@);
}

proof fn lemma_word_uint8(out: Seq<char>)
    ensures
        nsi_export::string_line(out, "scalarformat"@, "uint8"@) == out + value_text("scalarformat"@, "string"@, "\"uint8\""@),
{
    reveal_strlit("uint8");
    lemma_word(out, "scalarformat"@, "uint8"@);
    reveal_strlit("\"");
    reveal_strlit("\"uint8\"");
    assert("\"uint8\""@ =~= "\""@ + "uint8"@ + "\""@);
}

proof fn lemma_word_srgb(out: Seq<char>)
    ensures
        nsi_export::string_line(out, "colorprofile"@, "srgb"@) == out + value_text("colorprofile"@, "string"@, "\"srgb\""@),
{
    reveal_strlit("srgb");
    lemma_word(out, "colorprofile"@, "srgb"@);
    reveal_strlit("\"");
    reveal_strlit("\"srgb\"");
    assert("\"srgb\""@ =~= "\""@ + "srgb"@ + "\""@);
}

proof fn lemma_word_tiff(out: Seq<char>)
    ensures
        nsi_export::string_line(out, "drivername"@, "tiff"@) == out + value_text("drivername"@, "string"@, "\"tiff\""@),
{
    reveal_strlit("tiff");
    lemma_word(out, "drivername"@, "tiff"@);
    reveal_strlit("\"");
    reveal_strlit("\"tiff\"");
    assert("\"tiff\""@ =~= "\""@ + "tiff"@ + "\""@);
}

proof fn lemma_word_delight_osl_dlprincipled(out: Seq<char>)
    ensures
        nsi_export::string_line(out, "shaderfilename"@, "${DELIGHT}/osl/dlPrincipled"@) == out + value_text("shaderfilename"@, "string"@, "\"${DELIGHT}/osl/dlPrincipled\""@),
{
    reveal_strlit("${DELIGHT}/osl/dlPrincipled");
    lemma_word(out, "shaderfilename"@, "${DELIGHT}/osl/dlPrincipled"@);
    reveal_strlit("\"");
    reveal_strlit("\"${DELIGHT}/osl/dlPrincipled\"");
    assert("\"${DELIGHT}/osl/dlPrincipled\""@ =~= "\""@ + "${DELIGHT}/osl/dlPrincipled"@ + "\""@);
}

proof fn lemma_word_delight_osl_environmentlight(out: Seq<char>)
    ensures
        nsi_export::string_line(out, "shaderfilename"@, "${DELIGHT}/osl/environmentLight"@) == out + value_text("shaderfilename"@, "string"@, "\"${DELIGHT}/osl/environmentLight\""@),
{
    reveal_strlit("${DELIGHT}/osl/environmentLight");
    lemma_word(out, "shaderfilename"@, "${DELIGHT}/osl/environmentLight"@);
    reveal_strlit("\"");
    reveal_strlit("\"${DELIGHT}/osl/environmentLight\"");
    assert("\"${DELIGHT}/osl/environmentLight\""@ =~= "\""@ + "${DELIGHT}/osl/environmentLight"@ + "\""@);
}

/// The part of a scene that makes the title.
pub open spec fn title_text() -> Seq<char> {
    "# Monster STEP Viewer NSI export.\n"@
        + "# Uses weighted homogeneous `Pw` and per-loop `trimcurves.sense`.\n"@
        + "\n"@
}

proof fn lemma_title(out: Seq<char>)
    ensures
        ({
            let o1 = nsi_export::line(out, "# Monster STEP Viewer NSI export."@);
            let o2 = nsi_export::line(o1, "# Uses weighted homogeneous `Pw` and per-loop `trimcurves.sense`."@);
            let o3 = o2 + "\n"@;
            o3 == out + title_text()
        }),
{
    let o1 = nsi_export::line(out, "# Monster STEP Viewer NSI export."@);
    let o2 = nsi_export::line(o1, "# Uses weighted homogeneous `Pw` and per-loop `trimcurves.sense`."@);
    let o3 = o2 + "\n"@;
    reveal_strlit("# Monster STEP Viewer NSI export.");
    reveal_strlit("# Monster STEP Viewer NSI export.\n");
    reveal_strlit("\n");
    assert(o1 =~= out + "# Monster STEP Viewer NSI export.\n"@);
    let t1 = "# Monster STEP Viewer NSI export.\n"@;
    assert(o1 == out + t1);
    reveal_strlit("# Uses weighted homogeneous `Pw` and per-loop `trimcurves.sense`.");
    reveal_strlit("# Uses weighted homogeneous `Pw` and per-loop `trimcurves.sense`.\n");
    reveal_strlit("\n");
    assert(o2 =~= o1 + "# Uses weighted homogeneous `Pw` and per-loop `trimcurves.sense`.\n"@);
    let t2 = t1 + "# Uses weighted homogeneous `Pw` and per-loop `trimcurves.sense`.\n"@;
    lemma_joined(out, t1, "# Uses weighted homogeneous `Pw` and per-loop `trimcurves.sense`.\n"@);
    assert(o2 == out + t2);
    let t3 = t2 + "\n"@;
    lemma_joined(out, t2, "\n"@);
    assert(o3 == out + t3);
}

/// The part of a scene that makes the camera place.
pub open spec fn camera_place_text(camera: Seq<RealText>) -> Seq<char> {
    create_text("mstpv_camera_xform"@, "transform"@)
        + set_text("mstpv_camera_xform"@)
        + list_text("transformationmatrix"@, "doublematrix"@, camera)
        + connect_text("mstpv_camera_xform"@, ".root"@, "objects"@)
        + "\n"@
}

proof fn lemma_camera_place(out: Seq<char>, camera: Seq<RealText>)
    ensures
        ({
            let o1 = nsi_export::create_line(out, "mstpv_camera_xform"@, "transform"@);
            let o2 = nsi_export::set_attribute_line(o1, "mstpv_camera_xform"@);
            let o3 = nsi_export::slice_line(o2, "transformationmatrix"@, "doublematrix"@, camera);
            let o4 = nsi_export::connect_line(o3, "mstpv_camera_xform"@, ".root"@, "objects"@);
            let o5 = o4 + "\n"@;
            o5 == out + camera_place_text(camera)
        }),
{
    let o1 = nsi_export::create_line(out, "mstpv_camera_xform"@, "transform"@);
    let o2 = nsi_export::set_attribute_line(o1, "mstpv_camera_xform"@);
    let o3 = nsi_export::slice_line(o2, "transformationmatrix"@, "doublematrix"@, camera);
    let o4 = nsi_export::connect_line(o3, "mstpv_camera_xform"@, ".root"@, "objects"@);
    let o5 = o4 + "\n"@;
    lemma_create(out, "mstpv_camera_xform"@, "transform"@);
    let t1 = create_text("mstpv_camera_xform"@, "transform"@);
    assert(o1 == out + t1);
    reveal_strlit("mstpv_camera_xform");
    lemma_set(o1, "mstpv_camera_xform"@);
    let t2 = t1 + set_text("mstpv_camera_xform"@);
    lemma_joined(out, t1, set_text("mstpv_camera_xform"@));
    assert(o2 == out + t2);
    lemma_list(o2, "transformationmatrix"@, "doublematrix"@, camera);
    let t3 = t2 + list_text("transformationmatrix"@, "doublematrix"@, camera);
    lemma_joined(out, t2, list_text("transformationmatrix"@, "doublematrix"@, camera));
    assert(o3 == out + t3);
    lemma_connect(o3, "mstpv_camera_xform"@, ".root"@, "objects"@);
    let t4 = t3 + connect_text("mstpv_camera_xform"@, ".root"@, "objects"@);
    lemma_joined(out, t3, connect_text("mstpv_camera_xform"@, ".root"@, "objects"@));
    assert(o4 == out + t4);
    let t5 = t4 + "\n"@;
    lemma_joined(out, t4, "\n"@);
    assert(o5 == out + t5);
}

/// The part of a scene that makes the camera.
pub open spec fn camera_text(fov: Seq<char>) -> Seq<char> {
    create_text("mstpv_camera"@, "perspectivecamera"@)
        + set_text("mstpv_camera"@)
        + value_text("fov"@, "float"@, fov)
        + connect_text("mstpv_camera"@, "mstpv_camera_xform"@, "objects"@)
        + "\n"@
}

proof fn lemma_camera(out: Seq<char>, fov: Seq<char>)
    ensures
        ({
            let o1 = nsi_export::create_line(out, "mstpv_camera"@, "perspectivecamera"@);
            let o2 = nsi_export::set_attribute_line(o1, "mstpv_camera"@);
            let o3 = nsi_export::float_line(o2, "fov"@, fov);
            let o4 = nsi_export::connect_line(o3, "mstpv_camera"@, "mstpv_camera_xform"@, "objects"@);
            let o5 = o4 + "\n"@;
            o5 == out + camera_text(fov)
        }),
{
    let o1 = nsi_export::create_line(out, "mstpv_camera"@, "perspectivecamera"@);
    let o2 = nsi_export::set_attribute_line(o1, "mstpv_camera"@);
    let o3 = nsi_export::float_line(o2, "fov"@, fov);
    let o4 = nsi_export::connect_line(o3, "mstpv_camera"@, "mstpv_camera_xform"@, "objects"@);
    let o5 = o4 + "\n"@;
    lemma_create(out, "mstpv_camera"@, "perspectivecamera"@);
    let t1 = create_text("mstpv_camera"@, "perspectivecamera"@);
    assert(o1 == out + t1);
    reveal_strlit("mstpv_camera");
    lemma_set(o1, "mstpv_camera"@);
    let t2 = t1 + set_text("mstpv_camera"@);
    lemma_joined(out, t1, set_text("mstpv_camera"@));
    assert(o2 == out + t2);
    lemma_value(o2, "fov"@, "float"@, fov);
    let t3 = t2 + value_text("fov"@, "float"@, fov);
    lemma_joined(out, t2, value_text("fov"@, "float"@, fov));
    assert(o3 == out + t3);
    lemma_connect(o3, "mstpv_camera"@, "mstpv_camera_xform"@, "objects"@);
    let t4 = t3 + connect_text("mstpv_camera"@, "mstpv_camera_xform"@, "objects"@);
    lemma_joined(out, t3, connect_text("mstpv_camera"@, "mstpv_camera_xform"@, "objects"@));
    assert(o4 == out + t4);
    let t5 = t4 + "\n"@;
    lemma_joined(out, t4, "\n"@);
    assert(o5 == out + t5);
}

/// The part of a scene that makes the screen.
pub open spec fn screen_text(resolution: Seq<u32>) -> Seq<char> {
    create_text("mstpv_screen"@, "screen"@)
        + set_text("mstpv_screen"@)
        + list_text("resolution"@, "int"@, resolution)
        + value_text("oversampling"@, "int"@, "16"@)
        + connect_text("mstpv_screen"@, "mstpv_camera"@, "screens"@)
        + "\n"@
}

proof fn lemma_screen(out: Seq<char>, resolution: Seq<u32>)
    ensures
        ({
            let o1 = nsi_export::create_line(out, "mstpv_screen"@, "screen"@);
            let o2 = nsi_export::set_attribute_line(o1, "mstpv_screen"@);
            let o3 = nsi_export::slice_line(o2, "resolution"@, "int"@, resolution);
            let o4 = nsi_export::int_line(o3, "oversampling"@, 16);
            let o5 = nsi_export::connect_line(o4, "mstpv_screen"@, "mstpv_camera"@, "screens"@);
            let o6 = o5 + "\n"@;
            o6 == out + screen_text(resolution)
        }),
{
    let o1 = nsi_export::create_line(out, "mstpv_screen"@, "screen"@);
    let o2 = nsi_export::set_attribute_line(o1, "mstpv_screen"@);
    let o3 = nsi_export::slice_line(o2, "resolution"@, "int"@, resolution);
    let o4 = nsi_export::int_line(o3, "oversampling"@, 16);
    let o5 = nsi_export::connect_line(o4, "mstpv_screen"@, "mstpv_camera"@, "screens"@);
    let o6 = o5 + "\n"@;
    lemma_create(out, "mstpv_screen"@, "screen"@);
    let t1 = create_text("mstpv_screen"@, "screen"@);
    assert(o1 == out + t1);
    reveal_strlit("mstpv_screen");
    lemma_set(o1, "mstpv_screen"@);
    let t2 = t1 + set_text("mstpv_screen"@);
    lemma_joined(out, t1, set_text("mstpv_screen"@));
    assert(o2 == out + t2);
    lemma_list(o2, "resolution"@, "int"@, resolution);
    let t3 = t2 + list_text("resolution"@, "int"@, resolution);
    lemma_joined(out, t2, list_text("resolution"@, "int"@, resolution));
    assert(o3 == out + t3);
    lemma_small_number_16();
    lemma_value(o3, "oversampling"@, "int"@, "16"@);
    let t4 = t3 + value_text("oversampling"@, "int"@, "16"@);
    lemma_joined(out, t3, value_text("oversampling"@, "int"@, "16"@));
    assert(o4 == out + t4);
    lemma_connect(o4, "mstpv_screen"@, "mstpv_camera"@, "screens"@);
    let t5 = t4 + connect_text("mstpv_screen"@, "mstpv_camera"@, "screens"@);
    lemma_joined(out, t4, connect_text("mstpv_screen"@, "mstpv_camera"@, "screens"@));
    assert(o5 == out + t5);
    let t6 = t5 + "\n"@;
    lemma_joined(out, t5, "\n"@);
    assert(o6 == out + t6);
}

/// The part of a scene that makes the layer.
pub open spec fn layer_text() -> Seq<char> {
    create_text("mstpv_beauty"@, "outputlayer"@)
        + set_text("mstpv_beauty"@)
        + value_text("variablename"@, "string"@, "\"Ci\""@)
        + value_text("withalpha"@, "int"@, "1"@)
        + value_text("scalarformat"@, "string"@, "\"uint8\""@)
        + value_text("colorprofile"@, "string"@, "\"srgb\""@)
        + connect_text("mstpv_beauty"@, "mstpv_screen"@, "outputlayers"@)
        + "\n"@
}

proof fn lemma_layer(out: Seq<char>)
    ensures
        ({
            let o1 = nsi_export::create_line(out, "mstpv_beauty"@, "outputlayer"@);
            let o2 = nsi_export::set_attribute_line(o1, "mstpv_beauty"@);
            let o3 = nsi_export::string_line(o2, "variablename"@, "Ci"@);
            let o4 = nsi_export::int_line(o3, "withalpha"@, 1);
            let o5 = nsi_export::string_line(o4, "scalarformat"@, "uint8"@);
            let o6 = nsi_export::string_line(o5, "colorprofile"@, "srgb"@);
            let o7 = nsi_export::connect_line(o6, "mstpv_beauty"@, "mstpv_screen"@, "outputlayers"@);
            let o8 = o7 + "\n"@;
            o8 == out + layer_text()
        }),
{
    let o1 = nsi_export::create_line(out, "mstpv_beauty"@, "outputlayer"@);
    let o2 = nsi_export::set_attribute_line(o1, "mstpv_beauty"@);
    let o3 = nsi_export::string_line(o2, "variablename"@, "Ci"@);
    let o4 = nsi_export::int_line(o3, "withalpha"@, 1);
    let o5 = nsi_export::string_line(o4, "scalarformat"@, "uint8"@);
    let o6 = nsi_export::string_line(o5, "colorprofile"@, "srgb"@);
    let o7 = nsi_export::connect_line(o6, "mstpv_beauty"@, "mstpv_screen"@, "outputlayers"@);
    let o8 = o7 + "\n"@;
    lemma_create(out, "mstpv_beauty"@, "outputlayer"@);
    let t1 = create_text("mstpv_beauty"@, "outputlayer"@);
    assert(o1 == out + t1);
    reveal_strlit("mstpv_beauty");
    lemma_set(o1, "mstpv_beauty"@);
    let t2 = t1 + set_text("mstpv_beauty"@);
    lemma_joined(out, t1, set_text("mstpv_beauty"@));
    assert(o2 == out + t2);
    lemma_word_ci(o2);
    let t3 = t2 + value_text("variablename"@, "string"@, "\"Ci\""@);
    lemma_joined(out, t2, value_text("variablename"@, "string"@, "\"Ci\""@));
    assert(o3 == out + t3);
    lemma_small_number_1();
    lemma_value(o3, "withalpha"@, "int"@, "1"@);
    let t4 = t3 + value_text("withalpha"@, "int"@, "1"@);
    lemma_joined(out, t3, value_text("withalpha"@, "int"@, "1"@));
    assert(o4 == out + t4);
    lemma_word_uint8(o4);
    let t5 = t4 + value_text("scalarformat"@, "string"@, "\"uint8\""@);
    lemma_joined(out, t4, value_text("scalarformat"@, "string"@, "\"uint8\""@));
    assert(o5 == out + t5);
    lemma_word_srgb(o5);
    let t6 = t5 + value_text("colorprofile"@, "string"@, "\"srgb\""@);
    lemma_joined(out, t5, value_text("colorprofile"@, "string"@, "\"srgb\""@));
    assert(o6 == out + t6);
    lemma_connect(o6, "mstpv_beauty"@, "mstpv_screen"@, "outputlayers"@);
    let t7 = t6 + connect_text("mstpv_beauty"@, "mstpv_screen"@, "outputlayers"@);
    lemma_joined(out, t6, connect_text("mstpv_beauty"@, "mstpv_screen"@, "outputlayers"@));
    assert(o7 == out + t7);
    let t8 = t7 + "\n"@;
    lemma_joined(out, t7, "\n"@);
    assert(o8 == out + t8);
}

/// The part of a scene that makes the driver.
pub open spec fn driver_text(image: Seq<char>) -> Seq<char> {
    create_text("mstpv_driver"@, "outputdriver"@)
        + set_text("mstpv_driver"@)
        + value_text("drivername"@, "string"@, "\"tiff\""@)
        + value_text("imagefilename"@, "string"@, "\""@ + nsi_export::escaped(image) + "\""@)
        + connect_text("mstpv_driver"@, "mstpv_beauty"@, "outputdrivers"@)
        + "\n"@
}

proof fn lemma_driver(out: Seq<char>, image: Seq<char>)
    ensures
        ({
            let o1 = nsi_export::create_line(out, "mstpv_driver"@, "outputdriver"@);
            let o2 = nsi_export::set_attribute_line(o1, "mstpv_driver"@);
            let o3 = nsi_export::string_line(o2, "drivername"@, "tiff"@);
            let o4 = nsi_export::string_line(o3, "imagefilename"@, image);
            let o5 = nsi_export::connect_line(o4, "mstpv_driver"@, "mstpv_beauty"@, "outputdrivers"@);
            let o6 = o5 + "\n"@;
            o6 == out + driver_text(image)
        }),
{
    let o1 = nsi_export::create_line(out, "mstpv_driver"@, "outputdriver"@);
    let o2 = nsi_export::set_attribute_line(o1, "mstpv_driver"@);
    let o3 = nsi_export::string_line(o2, "drivername"@, "tiff"@);
    let o4 = nsi_export::string_line(o3, "imagefilename"@, image);
    let o5 = nsi_export::connect_line(o4, "mstpv_driver"@, "mstpv_beauty"@, "outputdrivers"@);
    let o6 = o5 + "\n"@;
    lemma_create(out, "mstpv_driver"@, "outputdriver"@);
    let t1 = create_text("mstpv_driver"@, "outputdriver"@);
    assert(o1 == out + t1);
    reveal_strlit("mstpv_driver");
    lemma_set(o1, "mstpv_driver"@);
    let t2 = t1 + set_text("mstpv_driver"@);
    lemma_joined(out, t1, set_text("mstpv_driver"@));
    assert(o2 == out + t2);
    lemma_word_tiff(o2);
    let t3 = t2 + value_text("drivername"@, "string"@, "\"tiff\""@);
    lemma_joined(out, t2, value_text("drivername"@, "string"@, "\"tiff\""@));
    assert(o3 == out + t3);
    lemma_any_word(o3, "imagefilename"@, image);
    let t4 = t3 + value_text("imagefilename"@, "string"@, "\""@ + nsi_export::escaped(image) + "\""@);
    lemma_joined(out, t3, value_text("imagefilename"@, "string"@, "\""@ + nsi_export::escaped(image) + "\""@));
    assert(o4 == out + t4);
    lemma_connect(o4, "mstpv_driver"@, "mstpv_beauty"@, "outputdrivers"@);
    let t5 = t4 + connect_text("mstpv_driver"@, "mstpv_beauty"@, "outputdrivers"@);
    lemma_joined(out, t4, connect_text("mstpv_driver"@, "mstpv_beauty"@, "outputdrivers"@));
    assert(o5 == out + t5);
    let t6 = t5 + "\n"@;
    lemma_joined(out, t5, "\n"@);
    assert(o6 == out + t6);
}

/// The part of a scene that makes the shader.
pub open spec fn shader_text() -> Seq<char> {
    create_text("mstpv_shader"@, "shader"@)
        + set_text("mstpv_shader"@)
        + value_text("shaderfilename"@, "string"@, "\"${DELIGHT}/osl/dlPrincipled\""@)
        + "  \"i_color\" \"color\" 1 [ 0.8 0.8 0.8 ]\n"@
        + value_text("roughness"@, "float"@, "0.3"@)
        + "\n"@
}

proof fn lemma_shader(out: Seq<char>)
    ensures
        ({
            let o1 = nsi_export::create_line(out, "mstpv_shader"@, "shader"@);
            let o2 = nsi_export::set_attribute_line(o1, "mstpv_shader"@);
            let o3 = nsi_export::string_line(o2, "shaderfilename"@, "${DELIGHT}/osl/dlPrincipled"@);
            let o4 = nsi_export::fixed_color_line(o3, "i_color"@, "0.8"@);
            let o5 = nsi_export::float_line(o4, "roughness"@, "0.3"@);
            let o6 = o5 + "\n"@;
            o6 == out + shader_text()
        }),
{
    let o1 = nsi_export::create_line(out, "mstpv_shader"@, "shader"@);
    let o2 = nsi_export::set_attribute_line(o1, "mstpv_shader"@);
    let o3 = nsi_export::string_line(o2, "shaderfilename"@, "${DELIGHT}/osl/dlPrincipled"@);
    let o4 = nsi_export::fixed_color_line(o3, "i_color"@, "0.8"@);
    let o5 = nsi_export::float_line(o4, "roughness"@, "0.3"@);
    let o6 = o5 + "\n"@;
    lemma_create(out, "mstpv_shader"@, "shader"@);
    let t1 = create_text("mstpv_shader"@, "shader"@);
    assert(o1 == out + t1);
    reveal_strlit("mstpv_shader");
    lemma_set(o1, "mstpv_shader"@);
    let t2 = t1 + set_text("mstpv_shader"@);
    lemma_joined(out, t1, set_text("mstpv_shader"@));
    assert(o2 == out + t2);
    lemma_word_delight_osl_dlprincipled(o2);
    let t3 = t2 + value_text("shaderfilename"@, "string"@, "\"${DELIGHT}/osl/dlPrincipled\""@);
    lemma_joined(out, t2, value_text("shaderfilename"@, "string"@, "\"${DELIGHT}/osl/dlPrincipled\""@));
    assert(o3 == out + t3);
    lemma_fixed_colour(o3);
    let t4 = t3 + "  \"i_color\" \"color\" 1 [ 0.8 0.8 0.8 ]\n"@;
    lemma_joined(out, t3, "  \"i_color\" \"color\" 1 [ 0.8 0.8 0.8 ]\n"@);
    assert(o4 == out + t4);
    lemma_value(o4, "roughness"@, "float"@, "0.3"@);
    let t5 = t4 + value_text("roughness"@, "float"@, "0.3"@);
    lemma_joined(out, t4, value_text("roughness"@, "float"@, "0.3"@));
    assert(o5 == out + t5);
    let t6 = t5 + "\n"@;
    lemma_joined(out, t5, "\n"@);
    assert(o6 == out + t6);
}

/// The part of a scene that makes the environment.
pub open spec fn environment_text() -> Seq<char> {
    create_text("mstpv_environment"@, "environment"@)
        + connect_text("mstpv_environment"@, ".root"@, "objects"@)
        + create_text("mstpv_env_attrib"@, "attributes"@)
        + set_text("mstpv_env_attrib"@)
        + value_text("visibility.camera"@, "int"@, "0"@)
        + connect_text("mstpv_env_attrib"@, "mstpv_environment"@, "geometryattributes"@)
}

proof fn lemma_environment(out: Seq<char>)
    ensures
        ({
            let o1 = nsi_export::create_line(out, "mstpv_environment"@, "environment"@);
            let o2 = nsi_export::connect_line(o1, "mstpv_environment"@, ".root"@, "objects"@);
            let o3 = nsi_export::create_line(o2, "mstpv_env_attrib"@, "attributes"@);
            let o4 = nsi_export::set_attribute_line(o3, "mstpv_env_attrib"@);
            let o5 = nsi_export::int_line(o4, "visibility.camera"@, 0);
            let o6 = nsi_export::connect_line(o5, "mstpv_env_attrib"@, "mstpv_environment"@, "geometryattributes"@);
            o6 == out + environment_text()
        }),
{
    let o1 = nsi_export::create_line(out, "mstpv_environment"@, "environment"@);
    let o2 = nsi_export::connect_line(o1, "mstpv_environment"@, ".root"@, "objects"@);
    let o3 = nsi_export::create_line(o2, "mstpv_env_attrib"@, "attributes"@);
    let o4 = nsi_export::set_attribute_line(o3, "mstpv_env_attrib"@);
    let o5 = nsi_export::int_line(o4, "visibility.camera"@, 0);
    let o6 = nsi_export::connect_line(o5, "mstpv_env_attrib"@, "mstpv_environment"@, "geometryattributes"@);
    lemma_create(out, "mstpv_environment"@, "environment"@);
    let t1 = create_text("mstpv_environment"@, "environment"@);
    assert(o1 == out + t1);
    lemma_connect(o1, "mstpv_environment"@, ".root"@, "objects"@);
    let t2 = t1 + connect_text("mstpv_environment"@, ".root"@, "objects"@);
    lemma_joined(out, t1, connect_text("mstpv_environment"@, ".root"@, "objects"@));
    assert(o2 == out + t2);
    lemma_create(o2, "mstpv_env_attrib"@, "attributes"@);
    let t3 = t2 + create_text("mstpv_env_attrib"@, "attributes"@);
    lemma_joined(out, t2, create_text("mstpv_env_attrib"@, "attributes"@));
    assert(o3 == out + t3);
    reveal_strlit("mstpv_env_attrib");
    lemma_set(o3, "mstpv_env_attrib"@);
    let t4 = t3 + set_text("mstpv_env_attrib"@);
    lemma_joined(out, t3, set_text("mstpv_env_attrib"@));
    assert(o4 == out + t4);
    lemma_small_number_0();
    lemma_value(o4, "visibility.camera"@, "int"@, "0"@);
    let t5 = t4 + value_text("visibility.camera"@, "int"@, "0"@);
    lemma_joined(out, t4, value_text("visibility.camera"@, "int"@, "0"@));
    assert(o5 == out + t5);
    lemma_connect(o5, "mstpv_env_attrib"@, "mstpv_environment"@, "geometryattributes"@);
    let t6 = t5 + connect_text("mstpv_env_attrib"@, "mstpv_environment"@, "geometryattributes"@);
    lemma_joined(out, t5, connect_text("mstpv_env_attrib"@, "mstpv_environment"@, "geometryattributes"@));
    assert(o6 == out + t6);
}

/// The part of a scene that makes the light.
pub open spec fn light_text() -> Seq<char> {
    create_text("mstpv_env_shader"@, "shader"@)
        + set_text("mstpv_env_shader"@)
        + value_text("shaderfilename"@, "string"@, "\"${DELIGHT}/osl/environmentLight\""@)
        + value_text("intensity"@, "float"@, "1"@)
        + connect_text("mstpv_env_shader"@, "mstpv_env_attrib"@, "surfaceshader"@)
        + "\n"@
}

proof fn lemma_light(out: Seq<char>)
    ensures
        ({
            let o1 = nsi_export::create_line(out, "mstpv_env_shader"@, "shader"@);
            let o2 = nsi_export::set_attribute_line(o1, "mstpv_env_shader"@);
            let o3 = nsi_export::string_line(o2, "shaderfilename"@, "${DELIGHT}/osl/environmentLight"@);
            let o4 = nsi_export::float_line(o3, "intensity"@, "1"@);
            let o5 = nsi_export::connect_line(o4, "mstpv_env_shader"@, "mstpv_env_attrib"@, "surfaceshader"@);
            let o6 = o5 + "\n"@;
            o6 == out + light_text()
        }),
{
    let o1 = nsi_export::create_line(out, "mstpv_env_shader"@, "shader"@);
    let o2 = nsi_export::set_attribute_line(o1, "mstpv_env_shader"@);
    let o3 = nsi_export::string_line(o2, "shaderfilename"@, "${DELIGHT}/osl/environmentLight"@);
    let o4 = nsi_export::float_line(o3, "intensity"@, "1"@);
    let o5 = nsi_export::connect_line(o4, "mstpv_env_shader"@, "mstpv_env_attrib"@, "surfaceshader"@);
    let o6 = o5 + "\n"@;
    lemma_create(out, "mstpv_env_shader"@, "shader"@);
    let t1 = create_text("mstpv_env_shader"@, "shader"@);
    assert(o1 == out + t1);
    reveal_strlit("mstpv_env_shader");
    lemma_set(o1, "mstpv_env_shader"@);
    let t2 = t1 + set_text("mstpv_env_shader"@);
    lemma_joined(out, t1, set_text("mstpv_env_shader"@));
    assert(o2 == out + t2);
    lemma_word_delight_osl_environmentlight(o2);
    let t3 = t2 + value_text("shaderfilename"@, "string"@, "\"${DELIGHT}/osl/environmentLight\""@);
    lemma_joined(out, t2, value_text("shaderfilename"@, "string"@, "\"${DELIGHT}/osl/environmentLight\""@));
    assert(o3 == out + t3);
    lemma_value(o3, "intensity"@, "float"@, "1"@);
    let t4 = t3 + value_text("intensity"@, "float"@, "1"@);
    lemma_joined(out, t3, value_text("intensity"@, "float"@, "1"@));
    assert(o4 == out + t4);
    lemma_connect(o4, "mstpv_env_shader"@, "mstpv_env_attrib"@, "surfaceshader"@);
    let t5 = t4 + connect_text("mstpv_env_shader"@, "mstpv_env_attrib"@, "surfaceshader"@);
    lemma_joined(out, t4, connect_text("mstpv_env_shader"@, "mstpv_env_attrib"@, "surfaceshader"@));
    assert(o5 == out + t5);
    let t6 = t5 + "\n"@;
    lemma_joined(out, t5, "\n"@);
    assert(o6 == out + t6);
}

/// A scene starts with the camera, the screen, the layer and the image that it
/// is rendered to, the shader and the environment, each connected to what it
/// belongs to.
pub proof fn law_header_says_all(out: Seq<char>, image: Seq<char>, camera: Seq<RealText>, fov: Seq<char>, resolution: Seq<u32>)
    ensures
        nsi_export::scene_header(out, image, camera, fov, resolution) == out + title_text() + camera_place_text(camera) + camera_text(fov) + screen_text(resolution) + layer_text() + driver_text(image) + shader_text() + environment_text() + light_text(),
{
    reveal(nsi_export::scene_header);
    lemma_title(out);
    let a_title = out + title_text();
    lemma_camera_place(a_title, camera);
    let a_camera_place = a_title + camera_place_text(camera);
    lemma_camera(a_camera_place, fov);
    let a_camera = a_camera_place + camera_text(fov);
    lemma_screen(a_camera, resolution);
    let a_screen = a_camera + screen_text(resolution);
    lemma_layer(a_screen);
    let a_layer = a_screen + layer_text();
    lemma_driver(a_layer, image);
    let a_driver = a_layer + driver_text(image);
    lemma_shader(a_driver);
    let a_shader = a_driver + shader_text();
    lemma_environment(a_shader);
    let a_environment = a_shader + environment_text();
    lemma_light(a_environment);
    let a_light = a_environment + light_text();
}

proof fn lemma_surface_lines_grow(out: Seq<char>, s: &NsiBrepSurfaceData<RealText>)
    ensures
        out.is_prefix_of(nsi_export::surface_lines(out, s)),
{
    let o1 = nsi_export::int_line(out, "nu"@, s.nu);
    let o2 = nsi_export::int_line(o1, "nv"@, s.nv);
    let o3 = nsi_export::int_line(o2, "uorder"@, s.uorder);
    let o4 = nsi_export::int_line(o3, "vorder"@, s.vorder);
    let o5 = nsi_export::slice_line(o4, "uknot"@, "float"@, s.uknot@);
    let o6 = nsi_export::slice_line(o5, "vknot"@, "float"@, s.vknot@);
    let o7 = nsi_export::float_line(o6, "umin"@, s.umin.text@);
    let o8 = nsi_export::float_line(o7, "umax"@, s.umax.text@);
    let o9 = nsi_export::float_line(o8, "vmin"@, s.vmin.text@);
    let o10 = nsi_export::float_line(o9, "vmax"@, s.vmax.text@);
    let start = o10 + "  \"Pw\" \"float\" "@ + text::decimal((s.pw@.len() * 4) as nat) + " ["@;
    lemma_value(out, "nu"@, "int"@, text::signed_decimal(s.nu as int));
    lemma_value(o1, "nv"@, "int"@, text::signed_decimal(s.nv as int));
    lemma_value(o2, "uorder"@, "int"@, text::signed_decimal(s.uorder as int));
    lemma_value(o3, "vorder"@, "int"@, text::signed_decimal(s.vorder as int));
    lemma_list(o4, "uknot"@, "float"@, s.uknot@);
    lemma_list(o5, "vknot"@, "float"@, s.vknot@);
    lemma_value(o6, "umin"@, "float"@, s.umin.text@);
    lemma_value(o7, "umax"@, "float"@, s.umax.text@);
    lemma_value(o8, "vmin"@, "float"@, s.vmin.text@);
    lemma_value(o9, "vmax"@, "float"@, s.vmax.text@);
    lemma_values(start, nsi_export::flat_points(s.pw@));
    let all = nsi_export::surface_lines(out, s);
    lemma_grown(out, o1, value_text("nu"@, "int"@, text::signed_decimal(s.nu as int)));
    lemma_grown(o1, o2, value_text("nv"@, "int"@, text::signed_decimal(s.nv as int)));
    lemma_grown(o2, o3, value_text("uorder"@, "int"@, text::signed_decimal(s.uorder as int)));
    lemma_grown(o3, o4, value_text("vorder"@, "int"@, text::signed_decimal(s.vorder as int)));
    lemma_grown(o4, o5, list_text("uknot"@, "float"@, s.uknot@));
    lemma_grown(o5, o6, list_text("vknot"@, "float"@, s.vknot@));
    lemma_grown(o6, o7, value_text("umin"@, "float"@, s.umin.text@));
    lemma_grown(o7, o8, value_text("umax"@, "float"@, s.umax.text@));
    lemma_grown(o8, o9, value_text("vmin"@, "float"@, s.vmin.text@));
    lemma_grown(o9, o10, value_text("vmax"@, "float"@, s.vmax.text@));
    assert(all.take(o10.len() as int) =~= o10);
    lemma_prefixes(o9, o10, all);
    lemma_prefixes(o8, o9, all);
    lemma_prefixes(o7, o8, all);
    lemma_prefixes(o6, o7, all);
    lemma_prefixes(o5, o6, all);
    lemma_prefixes(o4, o5, all);
    lemma_prefixes(o3, o4, all);
    lemma_prefixes(o2, o3, all);
    lemma_prefixes(o1, o2, all);
    lemma_prefixes(out, o1, all);
}

proof fn lemma_grown(a: Seq<char>, b: Seq<char>, more: Seq<char>)
    requires
        b == a + more,
    ensures
        a.is_prefix_of(b),
{
    assert(b.take(a.len() as int) =~= a);
}

proof fn lemma_trim_lines_grow(out: Seq<char>, t: &NsiBrepTrimData<RealText>)
    ensures
        out.is_prefix_of(nsi_export::trim_lines(out, t)),
{
    let o1 = nsi_export::int_line(out, "trimcurves.nloops"@, t.nloops);
    let o2 = nsi_export::slice_line(o1, "trimcurves.ncurves"@, "int"@, t.ncurves@);
    let o3 = nsi_export::slice_line(o2, "trimcurves.n"@, "int"@, t.n@);
    let o4 = nsi_export::slice_line(o3, "trimcurves.order"@, "int"@, t.order@);
    let o5 = nsi_export::slice_line(o4, "trimcurves.knot"@, "float"@, t.knot@);
    let o6 = nsi_export::slice_line(o5, "trimcurves.min"@, "float"@, t.min@);
    let o7 = nsi_export::slice_line(o6, "trimcurves.max"@, "float"@, t.max@);
    let o8 = nsi_export::slice_line(o7, "trimcurves.u"@, "float"@, t.u@);
    let o9 = nsi_export::slice_line(o8, "trimcurves.v"@, "float"@, t.v@);
    let o10 = nsi_export::slice_line(o9, "trimcurves.w"@, "float"@, t.w@);
    let all = nsi_export::trim_lines(out, t);
    lemma_value(out, "trimcurves.nloops"@, "int"@, text::signed_decimal(t.nloops as int));
    lemma_grown(
        out,
        o1,
        value_text("trimcurves.nloops"@, "int"@, text::signed_decimal(t.nloops as int)),
    );
    lemma_list(o1, "trimcurves.ncurves"@, "int"@, t.ncurves@);
    lemma_grown(o1, o2, list_text("trimcurves.ncurves"@, "int"@, t.ncurves@));
    lemma_list(o2, "trimcurves.n"@, "int"@, t.n@);
    lemma_grown(o2, o3, list_text("trimcurves.n"@, "int"@, t.n@));
    lemma_list(o3, "trimcurves.order"@, "int"@, t.order@);
    lemma_grown(o3, o4, list_text("trimcurves.order"@, "int"@, t.order@));
    lemma_list(o4, "trimcurves.knot"@, "float"@, t.knot@);
    lemma_grown(o4, o5, list_text("trimcurves.knot"@, "float"@, t.knot@));
    lemma_list(o5, "trimcurves.min"@, "float"@, t.min@);
    lemma_grown(o5, o6, list_text("trimcurves.min"@, "float"@, t.min@));
    lemma_list(o6, "trimcurves.max"@, "float"@, t.max@);
    lemma_grown(o6, o7, list_text("trimcurves.max"@, "float"@, t.max@));
    lemma_list(o7, "trimcurves.u"@, "float"@, t.u@);
    lemma_grown(o7, o8, list_text("trimcurves.u"@, "float"@, t.u@));
    lemma_list(o8, "trimcurves.v"@, "float"@, t.v@);
    lemma_grown(o8, o9, list_text("trimcurves.v"@, "float"@, t.v@));
    lemma_list(o9, "trimcurves.w"@, "float"@, t.w@);
    lemma_grown(o9, o10, list_text("trimcurves.w"@, "float"@, t.w@));
    lemma_list(o10, "trimcurves.sense"@, "int"@, t.sense@);
    lemma_grown(o10, all, list_text("trimcurves.sense"@, "int"@, t.sense@));
    lemma_prefixes(o9, o10, all);
    lemma_prefixes(o8, o9, all);
    lemma_prefixes(o7, o8, all);
    lemma_prefixes(o6, o7, all);
    lemma_prefixes(o5, o6, all);
    lemma_prefixes(o4, o5, all);
    lemma_prefixes(o3, o4, all);
    lemma_prefixes(o2, o3, all);
    lemma_prefixes(o1, o2, all);
    lemma_prefixes(out, o1, all);
}

proof fn lemma_digits_are_plain(n: nat)
    ensures
        are_plain(text::decimal(n)),
{
    text::law_decimal_reads_back(n);
    assert forall|i: int| 0 <= i < text::decimal(n).len() implies is_plain(
        #[trigger] text::decimal(n)[i],
    ) by {
        assert(text::is_digit(text::decimal(n)[i]));
    }
}

proof fn lemma_joined_plain(a: Seq<char>, b: Seq<char>)
    requires
        are_plain(a),
        are_plain(b),
    ensures
        are_plain(a + b),
{
    assert forall|i: int| 0 <= i < (a + b).len() implies is_plain(#[trigger] (a + b)[i]) by {
        if i < a.len() {
            assert(is_plain(a[i]));
        } else {
            assert(is_plain(b[i - a.len()]));
        }
    }
}

proof fn lemma_surface_handle_plain(shell: usize, face: usize)
    ensures
        are_plain(nsi_export::surface_handle(shell, face)),
{
    reveal_strlit("mstpv_brep_surface_shell_");
    reveal_strlit("_");
    lemma_digits_are_plain(shell as nat);
    lemma_digits_are_plain(face as nat);
    let a = "mstpv_brep_surface_shell_"@;
    lemma_joined_plain(a, text::decimal(shell as nat));
    lemma_joined_plain(a + text::decimal(shell as nat), "_"@);
    lemma_joined_plain(a + text::decimal(shell as nat) + "_"@, text::decimal(face as nat));
}

proof fn lemma_transform_handle_plain(shell: usize)
    ensures
        are_plain(nsi_export::transform_handle(shell)),
{
    reveal_strlit("mstpv_brep_xform_shell_");
    lemma_digits_are_plain(shell as nat);
    lemma_joined_plain("mstpv_brep_xform_shell_"@, text::decimal(shell as nat));
}

/// The attributes of the surface, with its trim curves where it has any, stand
/// directly behind the line that names its node.
pub open spec fn has_attributes(
    before: Seq<char>,
    node: Seq<char>,
    s: &NsiBrepSurfaceData<RealText>,
    new: Seq<char>,
) -> bool {
    let own = nsi_export::surface_lines(before + set_text(node), s);
    own.is_prefix_of(new) && (s.trims matches Some(t) ==> nsi_export::trim_lines(
        own,
        &t,
    ).is_prefix_of(new))
}

/// What is written of a surface: its node has a name of its shell and its face,
/// carries the attributes of the surface and belongs to the transformation.
/// Attributes of the same name have the shader and belong to the node.
pub proof fn law_surface_node_says_all(
    out: Seq<char>,
    transform: Seq<char>,
    shell: usize,
    s: &NsiBrepSurfaceData<RealText>,
)
    ensures
        ({
            let new = nsi_export::surface_node(out, transform, shell, s);
            let number = text::decimal(shell as nat) + "_"@ + text::decimal(s.face_index as nat);
            let node = "mstpv_brep_surface_shell_"@ + number;
            let attrib = "mstpv_brep_attrib_shell_"@ + number;
            &&& out.is_prefix_of(new)
            &&& has_attributes(out + "\n"@ + create_text(node, "nurbs"@), node, s, new)
            &&& says(out, new, connect_text(node, transform, "objects"@))
            &&& says(out, new, create_text(attrib, "attributes"@))
            &&& says(out, new, connect_text("mstpv_shader"@, attrib, "surfaceshader"@))
            &&& says(out, new, connect_text(attrib, node, "geometryattributes"@))
        }),
{
    reveal(nsi_export::surface_node);
    let new = nsi_export::surface_node(out, transform, shell, s);
    let number = text::decimal(shell as nat) + "_"@ + text::decimal(s.face_index as nat);
    let node = "mstpv_brep_surface_shell_"@ + number;
    let attrib = "mstpv_brep_attrib_shell_"@ + number;
    assert(nsi_export::surface_handle(shell, s.face_index) =~= node);
    assert(nsi_export::attrib_handle(shell, s.face_index) =~= attrib);
    let o1 = out + "\n"@;
    let o2 = o1 + create_text(node, "nurbs"@);
    let o3 = o2 + set_text(node);
    let o4 = nsi_export::surface_lines(o3, s);
    let o5 = match s.trims {
        Some(t) => nsi_export::trim_lines(o4, &t),
        None => o4,
    };
    let o6 = o5 + connect_text(node, transform, "objects"@);
    let o7 = o6 + create_text(attrib, "attributes"@);
    let o8 = o7 + connect_text("mstpv_shader"@, attrib, "surfaceshader"@);
    let o9 = o8 + connect_text(attrib, node, "geometryattributes"@);
    lemma_create(o1, node, "nurbs"@);
    lemma_surface_handle_plain(shell, s.face_index);
    lemma_set(o2, node);
    lemma_connect(o5, node, transform, "objects"@);
    lemma_create(o6, attrib, "attributes"@);
    lemma_connect(o7, "mstpv_shader"@, attrib, "surfaceshader"@);
    lemma_connect(o8, attrib, node, "geometryattributes"@);
    assert(new == o9);
    lemma_grown(out, o1, "\n"@);
    lemma_grown(o1, o2, create_text(node, "nurbs"@));
    lemma_grown(o2, o3, set_text(node));
    lemma_surface_lines_grow(o3, s);
    match s.trims {
        Some(t) => {
            lemma_trim_lines_grow(o4, &t);
        },
        None => {
            assert(o5.take(o4.len() as int) =~= o4);
        },
    }
    lemma_grown(o5, o6, connect_text(node, transform, "objects"@));
    lemma_grown(o6, o7, create_text(attrib, "attributes"@));
    lemma_grown(o7, o8, connect_text("mstpv_shader"@, attrib, "surfaceshader"@));
    lemma_grown(o8, o9, connect_text(attrib, node, "geometryattributes"@));
    lemma_prefixes(o7, o8, o9);
    lemma_prefixes(o6, o7, o9);
    lemma_prefixes(o5, o6, o9);
    lemma_prefixes(o4, o5, o9);
    lemma_prefixes(o3, o4, o9);
    lemma_prefixes(o2, o3, o9);
    lemma_prefixes(o1, o2, o9);
    lemma_prefixes(out, o1, o9);
    assert(out.len() <= o1.len() <= o2.len() <= o3.len() <= o4.len() <= o5.len() <= o6.len()
        <= o7.len() <= o8.len());
    lemma_says_last(out, o5, connect_text(node, transform, "objects"@), o6);
    lemma_says_still(out, o6, connect_text(node, transform, "objects"@), o9);
    lemma_says_last(out, o6, create_text(attrib, "attributes"@), o7);
    lemma_says_still(out, o7, create_text(attrib, "attributes"@), o9);
    lemma_says_last(out, o7, connect_text("mstpv_shader"@, attrib, "surfaceshader"@), o8);
    lemma_says_still(out, o8, connect_text("mstpv_shader"@, attrib, "surfaceshader"@), o9);
    lemma_says_last(out, o8, connect_text(attrib, node, "geometryattributes"@), o9);
}

/// Surfaces are written one after the other: those of two lists as those of the
/// first and then those of the second, and a single one as its node, below the
/// transformation of the shell.
pub proof fn law_surfaces_are_written_in_order(
    out: Seq<char>,
    shell: usize,
    a: Seq<NsiBrepSurfaceData<RealText>>,
    b: Seq<NsiBrepSurfaceData<RealText>>,
    s: NsiBrepSurfaceData<RealText>,
)
    ensures
        nsi_export::surface_nodes(out, shell, a + b) == nsi_export::surface_nodes(
            nsi_export::surface_nodes(out, shell, a),
            shell,
            b,
        ),
        nsi_export::surface_nodes(out, shell, seq![s]) == nsi_export::surface_node(
            out,
            "mstpv_brep_xform_shell_"@ + text::decimal(shell as nat),
            shell,
            &s,
        ),
    decreases b.len(),
{
    if b.len() == 0 {
        assert(a + b =~= a);
    } else {
        law_surfaces_are_written_in_order(out, shell, a, b.drop_last(), s);
        assert((a + b).drop_last() =~= a + b.drop_last());
    }
    assert(seq![s].drop_last() =~= Seq::empty());
    assert(nsi_export::surface_nodes(out, shell, seq![s].drop_last()) == out);
}

/// What is written of a shell with surfaces: its transformation with the matrix
/// of the model, below the root, and then its surfaces. Of a shell without
/// surfaces nothing is written.
pub proof fn law_shell_says_all(
    out: Seq<char>,
    shell: usize,
    surfaces: Seq<NsiBrepSurfaceData<RealText>>,
    matrix: Seq<RealText>,
)
    ensures
        ({
            let node = "mstpv_brep_xform_shell_"@ + text::decimal(shell as nat);
            nsi_export::shell_nodes(out, shell, surfaces, matrix) == if surfaces.len() == 0 {
                out
            } else {
                nsi_export::surface_nodes(
                    out + create_text(node, "transform"@) + set_text(node) + list_text(
                        "transformationmatrix"@,
                        "doublematrix"@,
                        matrix,
                    ) + connect_text(node, ".root"@, "objects"@),
                    shell,
                    surfaces,
                )
            }
        }),
{
    reveal(nsi_export::shell_nodes);
    let node = nsi_export::transform_handle(shell);
    let o1 = out + create_text(node, "transform"@);
    let o2 = o1 + set_text(node);
    let o3 = o2 + list_text("transformationmatrix"@, "doublematrix"@, matrix);
    lemma_create(out, node, "transform"@);
    lemma_transform_handle_plain(shell);
    lemma_set(o1, node);
    lemma_list(o2, "transformationmatrix"@, "doublematrix"@, matrix);
    lemma_connect(o3, node, ".root"@, "objects"@);
}

/// Shells are written one after the other, each with its own surfaces and all
/// with the same matrix.
pub proof fn law_shells_are_written_in_order(
    out: Seq<char>,
    a: Seq<ExportShell>,
    b: Seq<ExportShell>,
    s: ExportShell,
    matrix: Seq<RealText>,
)
    ensures
        nsi_export::scene_shells(out, a + b, matrix) == nsi_export::scene_shells(
            nsi_export::scene_shells(out, a, matrix),
            b,
            matrix,
        ),
        s.surfaces matches Some(list) ==> nsi_export::scene_shells(out, seq![s], matrix)
            == nsi_export::shell_nodes(out, s.id, list@, matrix),
        s.surfaces is None ==> nsi_export::scene_shells(out, seq![s], matrix) == out,
        nsi_export::surface_total(a + b) == nsi_export::surface_total(a)
            + nsi_export::surface_total(b),
        s.surfaces matches Some(list) ==> nsi_export::surface_total(seq![s]) == list@.len(),
        s.surfaces is None ==> nsi_export::surface_total(seq![s]) == 0,
    decreases b.len(),
{
    if b.len() == 0 {
        assert(a + b =~= a);
    } else {
        law_shells_are_written_in_order(out, a, b.drop_last(), s, matrix);
        assert((a + b).drop_last() =~= a + b.drop_last());
    }
    assert(seq![s].drop_last() =~= Seq::empty());
    assert(nsi_export::scene_shells(out, seq![s].drop_last(), matrix) == out);
    assert(nsi_export::surface_total(seq![s].drop_last()) == 0);
    law_shell_says_all(out, s.id, nsi_export::exported(s), matrix);
}

proof fn lemma_last_dot(a: Seq<char>, b: Seq<char>, c: char)
    requires
        text::lacks(b, c),
    ensures
        text::after_last_of(a.push(c) + b, c) == a.len() + 1,
    decreases b.len(),
{
    let s = a.push(c) + b;
    if b.len() == 0 {
        assert(s =~= a.push(c));
    } else {
        assert(b[b.len() - 1] != c);
        assert(s.last() == b[b.len() - 1]);
        assert(s.drop_last() =~= a.push(c) + b.drop_last());
        lemma_last_dot(a, b.drop_last(), c);
    }
}

proof fn lemma_last_part(dir: Seq<char>, name: Seq<char>, c: char)
    requires
        text::lacks(name, c),
    ensures
        text::split(dir.push(c) + name, c).len() > 0,
        text::split(dir.push(c) + name, c).last() == name,
    decreases dir.len(),
{
    let s = dir.push(c) + name;
    text::lemma_first_of(s, c);
    let at = text::first_of(s, c);
    assert(s[dir.len() as int] == c);
    if at == dir.len() {
        assert(s.skip(at + 1) =~= name);
        text::lemma_split_whole(name, c);
    } else {
        let rest = dir.skip(at + 1);
        assert(s.skip(at + 1) =~= rest.push(c) + name);
        lemma_last_part(rest, name, c);
    }
    assert(text::split(s, c) == seq![s.take(at)] + text::split(s.skip(at + 1), c));
}

/// A scene at a path with a directory, a name and an ending is rendered to an
/// image with that name and the ending for TIFF.
pub proof fn law_image_is_named_after_scene(dir: Seq<char>, name: Seq<char>, ending: Seq<char>)
    requires
        name.len() > 0,
        text::lacks(name, '/'),
        text::lacks(ending, '/'),
        text::lacks(ending, '.'),
        name.push('.') + ending != ".."@,
    ensures
        nsi_export::path_stem(dir.push('/') + (name.push('.') + ending)) == Some(name),
        nsi_export::image_filename(
            nsi_export::path_stem(dir.push('/') + (name.push('.') + ending)),
        ) == name + ".tif"@,
{
    let file = name.push('.') + ending;
    let path = dir.push('/') + file;
    assert(text::lacks(file, '/')) by {
        assert forall|i: int| 0 <= i < file.len() implies #[trigger] file[i] != '/' by {
            if i < name.len() {
                assert(name[i] != '/');
            } else if i > name.len() {
                assert(ending[i - name.len() - 1] != '/');
            }
        }
    }
    lemma_last_part(dir, file, '/');
    reveal_strlit(".");
    assert(file.len() >= 2);
    assert(file != "."@);
    assert(nsi_export::file_name(path) == Some(file));
    lemma_last_dot(name, ending, '.');
    assert(file.take(name.len() as int) =~= name);
}

/// A quote or a backslash in a text has a backslash before it, and what stands
/// around it is written as before.
pub proof fn law_quotes_are_marked(a: Seq<char>, b: Seq<char>)
    ensures
        nsi_export::escaped(a + b) == nsi_export::escaped(a) + nsi_export::escaped(b),
        nsi_export::escaped(seq!['"']) == seq!['\\', '"'],
        nsi_export::escaped(seq!['\\']) == seq!['\\', '\\'],
    decreases b.len(),
{
    if b.len() == 0 {
        assert(a + b =~= a);
        assert(nsi_export::escaped(a) + nsi_export::escaped(b) =~= nsi_export::escaped(a));
    } else {
        law_quotes_are_marked(a, b.drop_last());
        assert((a + b).drop_last() =~= a + b.drop_last());
        assert(nsi_export::escaped(a + b) =~= nsi_export::escaped(a) + nsi_export::escaped(b));
    }
    lemma_mark('"');
    lemma_mark('\\');
}

proof fn lemma_mark(c: char)
    ensures
        nsi_export::escaped(seq![c]) == nsi_export::escaped_char(c),
{
    let s = seq![c];
    assert(s.drop_last() =~= Seq::<char>::empty());
    assert(s.last() == c);
    assert(nsi_export::escaped(s.drop_last()) =~= Seq::<char>::empty());
    assert(nsi_export::escaped(s) =~= nsi_export::escaped_char(c));
}

/// Without a name for the scene, or with an empty one, the image has a fixed
/// name.
pub proof fn law_image_without_scene_has_fixed_name()
    ensures
        nsi_export::image_filename(None) == "mstpv_nsi_export.tif"@,
        nsi_export::image_filename(Some(Seq::empty())) == "mstpv_nsi_export.tif"@,
{
    reveal_strlit("mstpv_nsi_export.tif");
    reveal_strlit("mstpv_nsi_export");
    reveal_strlit(".tif");
    assert("mstpv_nsi_export"@ + ".tif"@ =~= "mstpv_nsi_export.tif"@);
}

} // verus!
