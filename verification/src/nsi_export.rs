//! Text of an NSI scene file.
//!
//! Real numbers come as their decimal text. Each function appends to the text
//! that it is given.

use vstd::prelude::*;

use crate::text;
use crate::text::{chars_of, push_decimal, push_signed_decimal};

verus! {

/// The error type of `std::fmt`.
#[verifier::external_type_specification]
#[verifier::external_body]
pub struct ExFmtError(std::fmt::Error);

/// A value that stands in an attribute of an NSI node.
pub trait NsiValue {
    spec fn nsi_text(&self) -> Seq<char>;

    fn write_nsi(&self, output: &mut String)
        ensures
            final(output)@ == old(output)@ + self.nsi_text(),
    ;
}

impl NsiValue for i32 {
    open spec fn nsi_text(&self) -> Seq<char> {
        text::signed_decimal(*self as int)
    }

    fn write_nsi(&self, output: &mut String) {
        push_signed_decimal(output, *self as i64);
    }
}

impl NsiValue for u32 {
    open spec fn nsi_text(&self) -> Seq<char> {
        text::decimal(*self as nat)
    }

    fn write_nsi(&self, output: &mut String) {
        push_decimal(output, *self as u64);
    }
}

/// A real number, as its decimal text.
pub struct RealText {
    pub text: String,
}

impl NsiValue for RealText {
    open spec fn nsi_text(&self) -> Seq<char> {
        self.text@
    }

    fn write_nsi(&self, output: &mut String) {
        output.append(self.text.as_str());
    }
}

/// The trim curves of a surface, loop after loop.
pub struct NsiBrepTrimData<F> {
    pub nloops: i32,
    pub ncurves: Vec<i32>,
    pub n: Vec<i32>,
    pub order: Vec<i32>,
    pub knot: Vec<F>,
    pub min: Vec<F>,
    pub max: Vec<F>,
    pub u: Vec<F>,
    pub v: Vec<F>,
    pub w: Vec<F>,
    pub sense: Vec<i32>,
}

/// A NURBS surface with its weighted homogeneous control points.
pub struct NsiBrepSurfaceData<F> {
    pub face_index: usize,
    pub nu: i32,
    pub nv: i32,
    pub uorder: i32,
    pub vorder: i32,
    pub uknot: Vec<F>,
    pub vknot: Vec<F>,
    pub umin: F,
    pub umax: F,
    pub vmin: F,
    pub vmax: F,
    pub pw: Vec<[F; 4]>,
    pub trims: Option<NsiBrepTrimData<F>>,
    pub sampled_trim_fallback_count: usize,
}

/// What a scene file holds besides the surfaces.
pub struct NsiFileExportOptions {
    /// The placement of the model, in row order.
    pub model_matrix: [RealText; 16],
    /// The placement of the camera, in row order.
    pub camera_matrix: [RealText; 16],
    pub fov_y_degrees: RealText,
    pub resolution: [u32; 2],
}

/// One character of a quoted text.
pub open spec fn escaped_char(c: char) -> Seq<char> {
    if c == '\\' {
        seq!['\\', '\\']
    } else if c == '"' {
        seq!['\\', '"']
    } else {
        seq![c]
    }
}

/// A text as it stands between quotes: a backslash goes before each quote and
/// each backslash.
pub open spec fn escaped(s: Seq<char>) -> Seq<char>
    decreases s.len(),
{
    if s.len() == 0 {
        Seq::empty()
    } else {
        escaped(s.drop_last()) + escaped_char(s.last())
    }
}

/// The text that a quoted text stands for.
pub open spec fn unescaped(s: Seq<char>) -> Seq<char>
    decreases s.len(),
{
    if s.len() == 0 {
        Seq::empty()
    } else if s[0] == '\\' && s.len() >= 2 {
        seq![s[1]] + unescaped(s.skip(2))
    } else {
        seq![s[0]] + unescaped(s.skip(1))
    }
}

proof fn lemma_unescape_append(s: Seq<char>, tail: Seq<char>)
    ensures
        unescaped(escaped(s) + tail) == s + unescaped(tail),
    decreases s.len(),
{
    if s.len() == 0 {
        assert(escaped(s) + tail =~= tail);
        assert(s + unescaped(tail) =~= unescaped(tail));
    } else {
        let c = s.last();
        let longer = escaped_char(c) + tail;
        lemma_unescape_append(s.drop_last(), longer);
        assert(escaped(s) + tail =~= escaped(s.drop_last()) + longer);
        if c == '\\' || c == '"' {
            assert(longer[0] == '\\' && longer[1] == c);
            assert(longer.skip(2) =~= tail);
        } else {
            assert(longer[0] == c);
            assert(longer.skip(1) =~= tail);
        }
        assert(unescaped(longer) == seq![c] + unescaped(tail));
        assert(s.drop_last() + (seq![c] + unescaped(tail)) =~= s + unescaped(tail));
    }
}

/// A quoted text stands for the text that was quoted.
pub proof fn law_escape_reads_back(s: Seq<char>)
    ensures
        unescaped(escaped(s)) == s,
{
    lemma_unescape_append(s, Seq::empty());
    assert(escaped(s) + Seq::<char>::empty() =~= escaped(s));
    assert(s + unescaped(Seq::<char>::empty()) =~= s);
}

/// A text as it stands between quotes.
pub fn escape_nsi_string(value: &str) -> (r: String)
    ensures
        r@ == escaped(value@),
{
    let chars = chars_of(value);
    let mut out = String::new();
    let mut i: usize = 0;
    while i < chars.len()
        invariant
            i <= chars.len(),
            chars@ == value@,
            out@ == escaped(value@.take(i as int)),
        decreases chars.len() - i,
    {
        let c: char = chars[i];
        let ghost before = out@;
        if c == '\\' || c == '"' {
            out.push('\\');
        }
        out.push(c);
        proof {
            assert(value@.take(i + 1).drop_last() =~= value@.take(i as int));
            assert(out@ =~= before + escaped_char(c));
        }
        i += 1;
    }
    assert(value@.take(value@.len() as int) =~= value@);
    out
}

/// The name of the rendered image: the stem of the scene file's name with the
/// ending for TIFF, or a fixed name without one.
pub open spec fn image_filename(stem: Option<Seq<char>>) -> Seq<char> {
    (match stem {
        Some(s) => if s.len() > 0 {
            s
        } else {
            "mstpv_nsi_export"@
        },
        None => "mstpv_nsi_export"@,
    }) + ".tif"@
}

pub open spec fn option_view(s: Option<String>) -> Option<Seq<char>> {
    match s {
        Some(text) => Some(text@),
        None => None,
    }
}

/// The name of the rendered image for a scene file with the given stem.
pub fn image_filename_for_stem(stem: Option<String>) -> (r: String)
    ensures
        r@ == image_filename(option_view(stem)),
{
    let mut out = String::new();
    match stem {
        Some(s) => {
            if s.as_str().is_empty() {
                out.append("mstpv_nsi_export");
            } else {
                out.append(s.as_str());
            }
        },
        None => {
            out.append("mstpv_nsi_export");
        },
    }
    out.append(".tif");
    assert(out@ =~= image_filename(option_view(stem)));
    out
}

/// The last of the parts that names something: an empty part and a single dot
/// do not.
pub open spec fn last_name(parts: Seq<Seq<char>>) -> Option<Seq<char>>
    decreases parts.len(),
{
    if parts.len() == 0 {
        None
    } else if parts.last().len() == 0 || parts.last() == "."@ {
        last_name(parts.drop_last())
    } else {
        Some(parts.last())
    }
}

/// The name of the file or directory that a path leads to. The root has none,
/// nor has a path that goes up at its end.
pub open spec fn file_name(path: Seq<char>) -> Option<Seq<char>> {
    match last_name(text::split(path, '/')) {
        Some(name) => if name == ".."@ {
            None
        } else {
            Some(name)
        },
        None => None,
    }
}

/// The name of a file without its ending: what stands before its last dot. All
/// of it where there is no dot but one at its start.
pub open spec fn stem_of(name: Seq<char>) -> Seq<char> {
    let behind = text::after_last_of(name, '.');
    if behind > 1 {
        name.take(behind - 1)
    } else {
        name
    }
}

pub open spec fn path_stem(path: Seq<char>) -> Option<Seq<char>> {
    match file_name(path) {
        Some(name) => Some(stem_of(name)),
        None => None,
    }
}

/// Every platform sees the same parts in the path: no backslash, no colon and
/// no two slashes at the start make it special.
pub open spec fn is_portable(path: Seq<char>) -> bool {
    &&& text::lacks(path, '\\')
    &&& text::lacks(path, ':')
    &&& !(path.len() >= 2 && path[0] == '/' && path[1] == '/')
}

/// `std::path::Path::file_stem`, as text if it is valid Unicode: the name that
/// the path ends in, without its ending. Slashes at the end and parts of a
/// single dot are passed over. Of a path whose parts depend on the platform
/// nothing is stated.
#[verifier::external_body]
fn file_stem_text(path: &str) -> (r: Option<String>)
    ensures
        is_portable(path@) ==> option_view(r) == path_stem(path@),
{
    std::path::Path::new(path).file_stem().and_then(|stem| stem.to_str()).map(String::from)
}

/// The image has the name that belongs to the scene file: that is made of the
/// stem of its path. The stem of a path that depends on the platform is what
/// that takes it to be.
pub open spec fn belongs_to_path(image: Seq<char>, path: Seq<char>) -> bool {
    &&& exists|stem: Option<Seq<char>>| image == #[trigger] image_filename(stem)
    &&& is_portable(path) ==> image == image_filename(path_stem(path))
}

/// The name of the rendered image for a scene file.
pub fn output_image_filename(path: &str) -> (r: String)
    ensures
        belongs_to_path(r@, path@),
{
    let stem = file_stem_text(path);
    image_filename_for_stem(stem)
}

// The text of single lines, put behind what was written before.

pub open spec fn line(out: Seq<char>, s: Seq<char>) -> Seq<char> {
    out + s + "\n"@
}

pub open spec fn create_line(out: Seq<char>, handle: Seq<char>, kind: Seq<char>) -> Seq<char> {
    out + "Create \""@ + handle + "\" \""@ + kind + "\"\n"@
}

pub open spec fn connect_line(
    out: Seq<char>,
    from: Seq<char>,
    to: Seq<char>,
    slot: Seq<char>,
) -> Seq<char> {
    out + "Connect \""@ + from + "\" \"\" \""@ + to + "\" \""@ + slot + "\"\n"@
}

pub open spec fn set_attribute_line(out: Seq<char>, handle: Seq<char>) -> Seq<char> {
    out + "SetAttribute \""@ + escaped(handle) + "\"\n"@
}

pub open spec fn scalar_line(
    out: Seq<char>,
    name: Seq<char>,
    kind: Seq<char>,
    value: Seq<char>,
) -> Seq<char> {
    out + "  \""@ + name + "\" \""@ + kind + "\" 1 "@ + value + "\n"@
}

pub open spec fn int_line(out: Seq<char>, name: Seq<char>, value: i32) -> Seq<char> {
    scalar_line(out, name, "int"@, text::signed_decimal(value as int))
}

pub open spec fn float_line(out: Seq<char>, name: Seq<char>, value: Seq<char>) -> Seq<char> {
    scalar_line(out, name, "float"@, value)
}

pub open spec fn string_line(out: Seq<char>, name: Seq<char>, value: Seq<char>) -> Seq<char> {
    out + "  \""@ + name + "\" \"string\" 1 \""@ + escaped(value) + "\"\n"@
}

/// The values, each with a space before it.
pub open spec fn values_text<T: NsiValue>(out: Seq<char>, values: Seq<T>) -> Seq<char>
    decreases values.len(),
{
    if values.len() == 0 {
        out
    } else {
        values_text(out, values.drop_last()) + " "@ + values.last().nsi_text()
    }
}

pub open spec fn slice_line<T: NsiValue>(
    out: Seq<char>,
    name: Seq<char>,
    kind: Seq<char>,
    values: Seq<T>,
) -> Seq<char> {
    values_text(
        out + "  \""@ + name + "\" \""@ + kind + "\" "@ + text::decimal(values.len()) + " ["@,
        values,
    ) + " ]\n"@
}

pub open spec fn color_line(out: Seq<char>, name: Seq<char>, values: Seq<RealText>) -> Seq<char> {
    values_text(out + "  \""@ + name + "\" \"color\" 1 ["@, values) + " ]\n"@
}

/// The coordinates of the points, one point after the other.
pub open spec fn flat_points(points: Seq<[RealText; 4]>) -> Seq<RealText>
    decreases points.len(),
{
    if points.len() == 0 {
        Seq::empty()
    } else {
        flat_points(points.drop_last()) + points.last()@
    }
}

pub open spec fn pw_line(out: Seq<char>, points: Seq<[RealText; 4]>) -> Seq<char> {
    values_text(
        out + "  \"Pw\" \"float\" "@ + text::decimal((points.len() * 4) as nat) + " ["@,
        flat_points(points),
    ) + " ]\n"@
}

fn write_line(output: &mut String, s: &str)
    ensures
        final(output)@ == line(old(output)@, s@),
{
    output.append(s);
    output.append("\n");
}

fn write_create(output: &mut String, handle: &str, kind: &str)
    ensures
        final(output)@ == create_line(old(output)@, handle@, kind@),
{
    output.append("Create \"");
    output.append(handle);
    output.append("\" \"");
    output.append(kind);
    output.append("\"\n");
}

fn write_connect(output: &mut String, from: &str, to: &str, slot: &str)
    ensures
        final(output)@ == connect_line(old(output)@, from@, to@, slot@),
{
    output.append("Connect \"");
    output.append(from);
    output.append("\" \"\" \"");
    output.append(to);
    output.append("\" \"");
    output.append(slot);
    output.append("\"\n");
}

/// The line that opens the attributes of a node.
pub fn write_set_attribute(output: &mut String, handle: &str) -> (r: Result<(), std::fmt::Error>)
    ensures
        r is Ok,
        final(output)@ == set_attribute_line(old(output)@, handle@),
{
    let quoted = escape_nsi_string(handle);
    output.append("SetAttribute \"");
    output.append(quoted.as_str());
    output.append("\"\n");
    Ok(())
}

fn write_scalar(output: &mut String, name: &str, kind: &str, value: &str)
    ensures
        final(output)@ == scalar_line(old(output)@, name@, kind@, value@),
{
    output.append("  \"");
    output.append(name);
    output.append("\" \"");
    output.append(kind);
    output.append("\" 1 ");
    output.append(value);
    output.append("\n");
}

/// An attribute with one whole number.
pub fn write_i32_attr(output: &mut String, name: &str, value: i32) -> (r: Result<
    (),
    std::fmt::Error,
>)
    ensures
        r is Ok,
        final(output)@ == int_line(old(output)@, name@, value),
{
    let mut digits = String::new();
    push_signed_decimal(&mut digits, value as i64);
    assert(digits@ =~= text::signed_decimal(value as int));
    write_scalar(output, name, "int", digits.as_str());
    Ok(())
}

/// An attribute with one real number.
pub fn write_f32_attr(output: &mut String, name: &str, value: &RealText) -> (r: Result<
    (),
    std::fmt::Error,
>)
    ensures
        r is Ok,
        final(output)@ == float_line(old(output)@, name@, value.text@),
{
    write_scalar(output, name, "float", value.text.as_str());
    Ok(())
}

/// An attribute with a text.
pub fn write_string_attr(output: &mut String, name: &str, value: &str) -> (r: Result<
    (),
    std::fmt::Error,
>)
    ensures
        r is Ok,
        final(output)@ == string_line(old(output)@, name@, value@),
{
    let quoted = escape_nsi_string(value);
    output.append("  \"");
    output.append(name);
    output.append("\" \"string\" 1 \"");
    output.append(quoted.as_str());
    output.append("\"\n");
    Ok(())
}

/// The values, each with a space before it.
pub fn write_values<T: NsiValue>(output: &mut String, values: &[T]) -> (r: Result<
    (),
    std::fmt::Error,
>)
    ensures
        r is Ok,
        final(output)@ == values_text(old(output)@, values@),
{
    let ghost start = output@;
    let mut i: usize = 0;
    while i < values.len()
        invariant
            i <= values.len(),
            output@ == values_text(start, values@.take(i as int)),
        decreases values.len() - i,
    {
        output.append(" ");
        values[i].write_nsi(output);
        assert(values@.take(i + 1).drop_last() =~= values@.take(i as int));
        i += 1;
    }
    assert(values@.take(values.len() as int) =~= values@);
    Ok(())
}

/// An attribute with a list of values.
pub fn write_slice_attr<T: NsiValue>(
    output: &mut String,
    name: &str,
    ty: &str,
    values: &[T],
) -> (r: Result<(), std::fmt::Error>)
    ensures
        r is Ok,
        final(output)@ == slice_line(old(output)@, name@, ty@, values@),
{
    output.append("  \"");
    output.append(name);
    output.append("\" \"");
    output.append(ty);
    output.append("\" ");
    push_decimal(output, values.len() as u64);
    output.append(" [");
    let _ = write_values(output, values);
    output.append(" ]\n");
    Ok(())
}

/// An attribute with a list of whole numbers.
pub fn write_u32_slice_attr(output: &mut String, name: &str, values: &[u32]) -> (r: Result<
    (),
    std::fmt::Error,
>)
    ensures
        r is Ok,
        final(output)@ == slice_line(old(output)@, name@, "int"@, values@),
{
    write_slice_attr(output, name, "int", values)
}

/// An attribute with a list of whole numbers that may be negative.
pub fn write_i32_slice_attr(output: &mut String, name: &str, values: &[i32]) -> (r: Result<
    (),
    std::fmt::Error,
>)
    ensures
        r is Ok,
        final(output)@ == slice_line(old(output)@, name@, "int"@, values@),
{
    write_slice_attr(output, name, "int", values)
}

/// An attribute with a list of real numbers.
pub fn write_f32_slice_attr(output: &mut String, name: &str, values: &[RealText]) -> (r: Result<
    (),
    std::fmt::Error,
>)
    ensures
        r is Ok,
        final(output)@ == slice_line(old(output)@, name@, "float"@, values@),
{
    write_slice_attr(output, name, "float", values)
}

/// An attribute with a matrix.
pub fn write_f64_matrix_attr(output: &mut String, name: &str, values: &[RealText; 16]) -> (r:
    Result<(), std::fmt::Error>)
    ensures
        r is Ok,
        final(output)@ == slice_line(old(output)@, name@, "doublematrix"@, values@),
{
    write_slice_attr(output, name, "doublematrix", values.as_slice())
}

/// An attribute with a colour.
pub fn write_color_attr(output: &mut String, name: &str, values: &[RealText; 3]) -> (r: Result<
    (),
    std::fmt::Error,
>)
    ensures
        r is Ok,
        final(output)@ == color_line(old(output)@, name@, values@),
{
    output.append("  \"");
    output.append(name);
    output.append("\" \"color\" 1 [");
    let _ = write_values(output, values.as_slice());
    output.append(" ]\n");
    Ok(())
}

/// The attribute with the control points of a surface.
pub fn write_pw_attr(output: &mut String, points: &[[RealText; 4]]) -> (r: Result<
    (),
    std::fmt::Error,
>)
    requires
        points@.len() * 4 <= usize::MAX,
    ensures
        r is Ok,
        final(output)@ == pw_line(old(output)@, points@),
{
    output.append("  \"Pw\" \"float\" ");
    push_decimal(output, (points.len() * 4) as u64);
    output.append(" [");
    let ghost start = output@;
    let mut i: usize = 0;
    while i < points.len()
        invariant
            i <= points.len(),
            output@ == values_text(start, flat_points(points@.take(i as int))),
        decreases points.len() - i,
    {
        let ghost before = flat_points(points@.take(i as int));
        let mut k: usize = 0;
        assert(before + points@[i as int]@.take(0) =~= before);
        while k < 4
            invariant
                i < points.len(),
                k <= 4,
                output@ == values_text(start, before + points@[i as int]@.take(k as int)),
            decreases 4 - k,
        {
            output.append(" ");
            points[i][k].write_nsi(output);
            proof {
                let now = before + points@[i as int]@.take(k + 1);
                assert(now.drop_last() =~= before + points@[i as int]@.take(k as int));
                assert(now.last() == points@[i as int]@[k as int]);
            }
            k += 1;
        }
        proof {
            assert(points@[i as int]@.take(4) =~= points@[i as int]@);
            assert(points@.take(i + 1).drop_last() =~= points@.take(i as int));
        }
        i += 1;
    }
    assert(points@.take(points.len() as int) =~= points@);
    output.append(" ]\n");
    Ok(())
}

pub open spec fn surface_lines(out: Seq<char>, s: &NsiBrepSurfaceData<RealText>) -> Seq<char> {
    let o1 = int_line(out, "nu"@, s.nu);
    let o2 = int_line(o1, "nv"@, s.nv);
    let o3 = int_line(o2, "uorder"@, s.uorder);
    let o4 = int_line(o3, "vorder"@, s.vorder);
    let o5 = slice_line(o4, "uknot"@, "float"@, s.uknot@);
    let o6 = slice_line(o5, "vknot"@, "float"@, s.vknot@);
    let o7 = float_line(o6, "umin"@, s.umin.text@);
    let o8 = float_line(o7, "umax"@, s.umax.text@);
    let o9 = float_line(o8, "vmin"@, s.vmin.text@);
    let o10 = float_line(o9, "vmax"@, s.vmax.text@);
    pw_line(o10, s.pw@)
}

pub open spec fn trim_lines(out: Seq<char>, t: &NsiBrepTrimData<RealText>) -> Seq<char> {
    let o1 = int_line(out, "trimcurves.nloops"@, t.nloops);
    let o2 = slice_line(o1, "trimcurves.ncurves"@, "int"@, t.ncurves@);
    let o3 = slice_line(o2, "trimcurves.n"@, "int"@, t.n@);
    let o4 = slice_line(o3, "trimcurves.order"@, "int"@, t.order@);
    let o5 = slice_line(o4, "trimcurves.knot"@, "float"@, t.knot@);
    let o6 = slice_line(o5, "trimcurves.min"@, "float"@, t.min@);
    let o7 = slice_line(o6, "trimcurves.max"@, "float"@, t.max@);
    let o8 = slice_line(o7, "trimcurves.u"@, "float"@, t.u@);
    let o9 = slice_line(o8, "trimcurves.v"@, "float"@, t.v@);
    let o10 = slice_line(o9, "trimcurves.w"@, "float"@, t.w@);
    slice_line(o10, "trimcurves.sense"@, "int"@, t.sense@)
}

/// The attributes of a surface: its size, its knots, its range and its
/// weighted homogeneous control points.
pub fn write_surface_attributes(output: &mut String, surface: &NsiBrepSurfaceData<RealText>) -> (r:
    Result<(), std::fmt::Error>)
    requires
        surface.pw@.len() * 4 <= usize::MAX,
    ensures
        r is Ok,
        final(output)@ == surface_lines(old(output)@, surface),
{
    let _ = write_i32_attr(output, "nu", surface.nu);
    let _ = write_i32_attr(output, "nv", surface.nv);
    let _ = write_i32_attr(output, "uorder", surface.uorder);
    let _ = write_i32_attr(output, "vorder", surface.vorder);
    let _ = write_f32_slice_attr(output, "uknot", surface.uknot.as_slice());
    let _ = write_f32_slice_attr(output, "vknot", surface.vknot.as_slice());
    let _ = write_f32_attr(output, "umin", &surface.umin);
    let _ = write_f32_attr(output, "umax", &surface.umax);
    let _ = write_f32_attr(output, "vmin", &surface.vmin);
    let _ = write_f32_attr(output, "vmax", &surface.vmax);
    write_pw_attr(output, surface.pw.as_slice())
}

/// The attributes of the trim curves of a surface, with one sense for each
/// loop.
pub fn write_trim_attributes(output: &mut String, trims: &NsiBrepTrimData<RealText>) -> (r: Result<
    (),
    std::fmt::Error,
>)
    ensures
        r is Ok,
        final(output)@ == trim_lines(old(output)@, trims),
{
    let _ = write_i32_attr(output, "trimcurves.nloops", trims.nloops);
    let _ = write_i32_slice_attr(output, "trimcurves.ncurves", trims.ncurves.as_slice());
    let _ = write_i32_slice_attr(output, "trimcurves.n", trims.n.as_slice());
    let _ = write_i32_slice_attr(output, "trimcurves.order", trims.order.as_slice());
    let _ = write_f32_slice_attr(output, "trimcurves.knot", trims.knot.as_slice());
    let _ = write_f32_slice_attr(output, "trimcurves.min", trims.min.as_slice());
    let _ = write_f32_slice_attr(output, "trimcurves.max", trims.max.as_slice());
    let _ = write_f32_slice_attr(output, "trimcurves.u", trims.u.as_slice());
    let _ = write_f32_slice_attr(output, "trimcurves.v", trims.v.as_slice());
    let _ = write_f32_slice_attr(output, "trimcurves.w", trims.w.as_slice());
    write_i32_slice_attr(output, "trimcurves.sense", trims.sense.as_slice())
}

pub open spec fn surface_handle(shell: usize, face: usize) -> Seq<char> {
    "mstpv_brep_surface_shell_"@ + text::decimal(shell as nat) + "_"@ + text::decimal(face as nat)
}

pub open spec fn attrib_handle(shell: usize, face: usize) -> Seq<char> {
    "mstpv_brep_attrib_shell_"@ + text::decimal(shell as nat) + "_"@ + text::decimal(face as nat)
}

pub open spec fn transform_handle(shell: usize) -> Seq<char> {
    "mstpv_brep_xform_shell_"@ + text::decimal(shell as nat)
}

/// The nodes of a surface: the surface, its attributes, and what they are
/// connected to.
#[verifier::opaque]
pub open spec fn surface_node(
    out: Seq<char>,
    transform: Seq<char>,
    shell: usize,
    s: &NsiBrepSurfaceData<RealText>,
) -> Seq<char> {
    let surface = surface_handle(shell, s.face_index);
    let attrib = attrib_handle(shell, s.face_index);
    let o1 = out + "\n"@;
    let o2 = create_line(o1, surface, "nurbs"@);
    let o3 = set_attribute_line(o2, surface);
    let o4 = surface_lines(o3, s);
    let o5 = match s.trims {
        Some(t) => trim_lines(o4, &t),
        None => o4,
    };
    let o6 = connect_line(o5, surface, transform, "objects"@);
    let o7 = create_line(o6, attrib, "attributes"@);
    let o8 = connect_line(o7, "mstpv_shader"@, attrib, "surfaceshader"@);
    connect_line(o8, attrib, surface, "geometryattributes"@)
}

fn numbered_handle(prefix: &str, shell: usize, face: usize) -> (r: String)
    ensures
        r@ == prefix@ + text::decimal(shell as nat) + "_"@ + text::decimal(face as nat),
{
    let mut out = String::new();
    out.append(prefix);
    push_decimal(&mut out, shell as u64);
    out.append("_");
    push_decimal(&mut out, face as u64);
    assert(out@ =~= prefix@ + text::decimal(shell as nat) + "_"@ + text::decimal(face as nat));
    out
}

/// The nodes of a surface.
pub fn write_surface_node(
    output: &mut String,
    transform: &str,
    shell_id: usize,
    surface: &NsiBrepSurfaceData<RealText>,
) -> (r: Result<(), std::fmt::Error>)
    requires
        surface.pw@.len() * 4 <= usize::MAX,
    ensures
        r is Ok,
        final(output)@ == surface_node(old(output)@, transform@, shell_id, surface),
{
    proof {
        reveal(surface_node);
    }
    let node = numbered_handle("mstpv_brep_surface_shell_", shell_id, surface.face_index);
    let attrib = numbered_handle("mstpv_brep_attrib_shell_", shell_id, surface.face_index);
    output.append("\n");
    write_create(output, node.as_str(), "nurbs");
    let _ = write_set_attribute(output, node.as_str());
    let _ = write_surface_attributes(output, surface);
    match &surface.trims {
        Some(trims) => {
            let _ = write_trim_attributes(output, trims);
        },
        None => {},
    }
    write_connect(output, node.as_str(), transform, "objects");
    write_create(output, attrib.as_str(), "attributes");
    write_connect(output, "mstpv_shader", attrib.as_str(), "surfaceshader");
    write_connect(output, attrib.as_str(), node.as_str(), "geometryattributes");
    Ok(())
}

pub open spec fn surface_nodes(
    out: Seq<char>,
    shell: usize,
    surfaces: Seq<NsiBrepSurfaceData<RealText>>,
) -> Seq<char>
    decreases surfaces.len(),
{
    if surfaces.len() == 0 {
        out
    } else {
        surface_node(
            surface_nodes(out, shell, surfaces.drop_last()),
            transform_handle(shell),
            shell,
            &surfaces.last(),
        )
    }
}

/// The nodes of a shell: its transformation and its surfaces. A shell without
/// surfaces has none.
#[verifier::opaque]
pub open spec fn shell_nodes(
    out: Seq<char>,
    shell: usize,
    surfaces: Seq<NsiBrepSurfaceData<RealText>>,
    matrix: Seq<RealText>,
) -> Seq<char> {
    if surfaces.len() == 0 {
        out
    } else {
        let transform = transform_handle(shell);
        let o1 = create_line(out, transform, "transform"@);
        let o2 = set_attribute_line(o1, transform);
        let o3 = slice_line(o2, "transformationmatrix"@, "doublematrix"@, matrix);
        let o4 = connect_line(o3, transform, ".root"@, "objects"@);
        surface_nodes(o4, shell, surfaces)
    }
}

/// The number of coordinates of each surface can be counted.
pub open spec fn writable(surfaces: Seq<NsiBrepSurfaceData<RealText>>) -> bool {
    forall|i: int| 0 <= i < surfaces.len() ==> (#[trigger] surfaces[i]).pw@.len() * 4 <= usize::MAX
}

/// The nodes of a shell; gives back the number of surfaces.
pub fn write_shell(
    output: &mut String,
    shell_id: usize,
    surfaces: &[NsiBrepSurfaceData<RealText>],
    model_matrix: &[RealText; 16],
) -> (r: Result<usize, std::fmt::Error>)
    requires
        writable(surfaces@),
    ensures
        r == Ok::<usize, std::fmt::Error>(surfaces@.len() as usize),
        final(output)@ == shell_nodes(old(output)@, shell_id, surfaces@, model_matrix@),
{
    proof {
        reveal(shell_nodes);
    }
    if surfaces.len() == 0 {
        return Ok(0);
    }
    let mut transform = String::new();
    transform.append("mstpv_brep_xform_shell_");
    push_decimal(&mut transform, shell_id as u64);
    assert(transform@ =~= transform_handle(shell_id));
    write_create(output, transform.as_str(), "transform");
    let _ = write_set_attribute(output, transform.as_str());
    let _ = write_f64_matrix_attr(output, "transformationmatrix", model_matrix);
    write_connect(output, transform.as_str(), ".root", "objects");
    let ghost start = output@;
    let mut i: usize = 0;
    while i < surfaces.len()
        invariant
            i <= surfaces.len(),
            writable(surfaces@),
            transform@ == transform_handle(shell_id),
            output@ == surface_nodes(start, shell_id, surfaces@.take(i as int)),
        decreases surfaces.len() - i,
    {
        let _ = write_surface_node(output, transform.as_str(), shell_id, &surfaces[i]);
        assert(surfaces@.take(i + 1).drop_last() =~= surfaces@.take(i as int));
        i += 1;
    }
    assert(surfaces@.take(surfaces.len() as int) =~= surfaces@);
    Ok(surfaces.len())
}


/// The text of a fixed colour.
pub open spec fn fixed_color_line(out: Seq<char>, name: Seq<char>, value: Seq<char>) -> Seq<char> {
    out + "  \""@ + name + "\" \"color\" 1 ["@ + " "@ + value + " "@ + value + " "@ + value
        + " ]\n"@
}

/// The fixed part of a scene: camera, screen, output, shader and environment.
#[verifier::opaque]
pub open spec fn scene_header(
    out: Seq<char>,
    image: Seq<char>,
    camera: Seq<RealText>,
    fov: Seq<char>,
    resolution: Seq<u32>,
) -> Seq<char> {
    let a1 = line(out, "# Monster STEP Viewer NSI export."@);
    let a2 = line(a1, "# Uses weighted homogeneous `Pw` and per-loop `trimcurves.sense`."@);
    let a3 = a2 + "\n"@;
    let b1 = create_line(a3, "mstpv_camera_xform"@, "transform"@);
    let b2 = set_attribute_line(b1, "mstpv_camera_xform"@);
    let b3 = slice_line(b2, "transformationmatrix"@, "doublematrix"@, camera);
    let b4 = connect_line(b3, "mstpv_camera_xform"@, ".root"@, "objects"@);
    let b5 = b4 + "\n"@;
    let c1 = create_line(b5, "mstpv_camera"@, "perspectivecamera"@);
    let c2 = set_attribute_line(c1, "mstpv_camera"@);
    let c3 = float_line(c2, "fov"@, fov);
    let c4 = connect_line(c3, "mstpv_camera"@, "mstpv_camera_xform"@, "objects"@);
    let c5 = c4 + "\n"@;
    let d1 = create_line(c5, "mstpv_screen"@, "screen"@);
    let d2 = set_attribute_line(d1, "mstpv_screen"@);
    let d3 = slice_line(d2, "resolution"@, "int"@, resolution);
    let d4 = int_line(d3, "oversampling"@, 16);
    let d5 = connect_line(d4, "mstpv_screen"@, "mstpv_camera"@, "screens"@);
    let d6 = d5 + "\n"@;
    let e1 = create_line(d6, "mstpv_beauty"@, "outputlayer"@);
    let e2 = set_attribute_line(e1, "mstpv_beauty"@);
    let e3 = string_line(e2, "variablename"@, "Ci"@);
    let e4 = int_line(e3, "withalpha"@, 1);
    let e5 = string_line(e4, "scalarformat"@, "uint8"@);
    let e6 = string_line(e5, "colorprofile"@, "srgb"@);
    let e7 = connect_line(e6, "mstpv_beauty"@, "mstpv_screen"@, "outputlayers"@);
    let e8 = e7 + "\n"@;
    let f1 = create_line(e8, "mstpv_driver"@, "outputdriver"@);
    let f2 = set_attribute_line(f1, "mstpv_driver"@);
    let f3 = string_line(f2, "drivername"@, "tiff"@);
    let f4 = string_line(f3, "imagefilename"@, image);
    let f5 = connect_line(f4, "mstpv_driver"@, "mstpv_beauty"@, "outputdrivers"@);
    let f6 = f5 + "\n"@;
    let g1 = create_line(f6, "mstpv_shader"@, "shader"@);
    let g2 = set_attribute_line(g1, "mstpv_shader"@);
    let g3 = string_line(g2, "shaderfilename"@, "${DELIGHT}/osl/dlPrincipled"@);
    let g4 = fixed_color_line(g3, "i_color"@, "0.8"@);
    let g5 = float_line(g4, "roughness"@, "0.3"@);
    let g6 = g5 + "\n"@;
    let h1 = create_line(g6, "mstpv_environment"@, "environment"@);
    let h2 = connect_line(h1, "mstpv_environment"@, ".root"@, "objects"@);
    let h3 = create_line(h2, "mstpv_env_attrib"@, "attributes"@);
    let h4 = set_attribute_line(h3, "mstpv_env_attrib"@);
    let h5 = int_line(h4, "visibility.camera"@, 0);
    let h6 = connect_line(h5, "mstpv_env_attrib"@, "mstpv_environment"@, "geometryattributes"@);
    let k1 = create_line(h6, "mstpv_env_shader"@, "shader"@);
    let k2 = set_attribute_line(k1, "mstpv_env_shader"@);
    let k3 = string_line(k2, "shaderfilename"@, "${DELIGHT}/osl/environmentLight"@);
    let k4 = float_line(k3, "intensity"@, "1"@);
    let k5 = connect_line(k4, "mstpv_env_shader"@, "mstpv_env_attrib"@, "surfaceshader"@);
    k5 + "\n"@
}

fn write_fixed_color(output: &mut String, name: &str, value: &str)
    ensures
        final(output)@ == fixed_color_line(old(output)@, name@, value@),
{
    output.append("  \"");
    output.append(name);
    output.append("\" \"color\" 1 [");
    output.append(" ");
    output.append(value);
    output.append(" ");
    output.append(value);
    output.append(" ");
    output.append(value);
    output.append(" ]\n");
}

/// The fixed part of a scene, with the camera, the resolution and the name of
/// the image that it is rendered to.
pub fn write_scene_header(
    output: &mut String,
    image: &str,
    options: &NsiFileExportOptions,
) -> (r: Result<(), std::fmt::Error>)
    ensures
        r is Ok,
        final(output)@ == scene_header(
            old(output)@,
            image@,
            options.camera_matrix@,
            options.fov_y_degrees.text@,
            options.resolution@,
        ),
{
    proof {
        reveal(scene_header);
    }
    write_line(output, "# Monster STEP Viewer NSI export.");
    write_line(output, "# Uses weighted homogeneous `Pw` and per-loop `trimcurves.sense`.");
    output.append("\n");
    write_create(output, "mstpv_camera_xform", "transform");
    let _ = write_set_attribute(output, "mstpv_camera_xform");
    let _ = write_f64_matrix_attr(output, "transformationmatrix", &options.camera_matrix);
    write_connect(output, "mstpv_camera_xform", ".root", "objects");
    output.append("\n");
    write_create(output, "mstpv_camera", "perspectivecamera");
    let _ = write_set_attribute(output, "mstpv_camera");
    let _ = write_f32_attr(output, "fov", &options.fov_y_degrees);
    write_connect(output, "mstpv_camera", "mstpv_camera_xform", "objects");
    output.append("\n");
    write_create(output, "mstpv_screen", "screen");
    let _ = write_set_attribute(output, "mstpv_screen");
    let _ = write_u32_slice_attr(output, "resolution", options.resolution.as_slice());
    let _ = write_i32_attr(output, "oversampling", 16);
    write_connect(output, "mstpv_screen", "mstpv_camera", "screens");
    output.append("\n");
    write_create(output, "mstpv_beauty", "outputlayer");
    let _ = write_set_attribute(output, "mstpv_beauty");
    let _ = write_string_attr(output, "variablename", "Ci");
    let _ = write_i32_attr(output, "withalpha", 1);
    let _ = write_string_attr(output, "scalarformat", "uint8");
    let _ = write_string_attr(output, "colorprofile", "srgb");
    write_connect(output, "mstpv_beauty", "mstpv_screen", "outputlayers");
    output.append("\n");
    write_create(output, "mstpv_driver", "outputdriver");
    let _ = write_set_attribute(output, "mstpv_driver");
    let _ = write_string_attr(output, "drivername", "tiff");
    let _ = write_string_attr(output, "imagefilename", image);
    write_connect(output, "mstpv_driver", "mstpv_beauty", "outputdrivers");
    output.append("\n");
    write_create(output, "mstpv_shader", "shader");
    let _ = write_set_attribute(output, "mstpv_shader");
    let _ = write_string_attr(output, "shaderfilename", "${DELIGHT}/osl/dlPrincipled");
    write_fixed_color(output, "i_color", "0.8");
    write_scalar(output, "roughness", "float", "0.3");
    output.append("\n");
    write_create(output, "mstpv_environment", "environment");
    write_connect(output, "mstpv_environment", ".root", "objects");
    write_create(output, "mstpv_env_attrib", "attributes");
    let _ = write_set_attribute(output, "mstpv_env_attrib");
    let _ = write_i32_attr(output, "visibility.camera", 0);
    write_connect(output, "mstpv_env_attrib", "mstpv_environment", "geometryattributes");
    write_create(output, "mstpv_env_shader", "shader");
    let _ = write_set_attribute(output, "mstpv_env_shader");
    let _ = write_string_attr(output, "shaderfilename", "${DELIGHT}/osl/environmentLight");
    write_scalar(output, "intensity", "float", "1");
    write_connect(output, "mstpv_env_shader", "mstpv_env_attrib", "surfaceshader");
    output.append("\n");
    Ok(())
}

/// A shell to export: its number and, if its topology is known, its surfaces.
pub struct ExportShell {
    pub id: usize,
    pub surfaces: Option<Vec<NsiBrepSurfaceData<RealText>>>,
}

pub open spec fn exported(shell: ExportShell) -> Seq<NsiBrepSurfaceData<RealText>> {
    match shell.surfaces {
        Some(s) => s@,
        None => Seq::empty(),
    }
}

pub open spec fn scene_shells(out: Seq<char>, shells: Seq<ExportShell>, matrix: Seq<RealText>) -> Seq<
    char,
>
    decreases shells.len(),
{
    if shells.len() == 0 {
        out
    } else {
        shell_nodes(
            scene_shells(out, shells.drop_last(), matrix),
            shells.last().id,
            exported(shells.last()),
            matrix,
        )
    }
}

pub open spec fn surface_total(shells: Seq<ExportShell>) -> int
    decreases shells.len(),
{
    if shells.len() == 0 {
        0
    } else {
        surface_total(shells.drop_last()) + exported(shells.last()).len()
    }
}

proof fn lemma_surface_total_grows(shells: Seq<ExportShell>, n: int)
    requires
        0 <= n <= shells.len(),
    ensures
        0 <= surface_total(shells.take(n)) <= surface_total(shells),
    decreases shells.len(),
{
    if n < shells.len() {
        lemma_surface_total_grows(shells.drop_last(), n);
        assert(shells.drop_last().take(n) =~= shells.take(n));
    } else {
        assert(shells.take(n) =~= shells);
        if n > 0 {
            lemma_surface_total_grows(shells.drop_last(), n - 1);
            assert(shells.drop_last().take(n - 1) =~= shells.drop_last());
        }
    }
}

/// A whole scene; gives back the number of surfaces. Shells whose topology is
/// not known are left out.
pub fn write_scene_for_image(
    output: &mut String,
    image: &str,
    shells: &[ExportShell],
    options: &NsiFileExportOptions,
) -> (r: Result<usize, std::fmt::Error>)
    requires
        surface_total(shells@) <= usize::MAX,
        forall|i: int| 0 <= i < shells@.len() ==> writable(exported(#[trigger] shells@[i])),
    ensures
        r == Ok::<usize, std::fmt::Error>(surface_total(shells@) as usize),
        final(output)@ == scene_shells(
            scene_header(
                old(output)@,
                image@,
                options.camera_matrix@,
                options.fov_y_degrees.text@,
                options.resolution@,
            ),
            shells@,
            options.model_matrix@,
        ),
{
    let _ = write_scene_header(output, image, options);
    let ghost start = output@;
    let mut count: usize = 0;
    let mut i: usize = 0;
    while i < shells.len()
        invariant
            i <= shells.len(),
            surface_total(shells@) <= usize::MAX,
            forall|k: int| 0 <= k < shells@.len() ==> writable(exported(#[trigger] shells@[k])),
            count == surface_total(shells@.take(i as int)),
            output@ == scene_shells(start, shells@.take(i as int), options.model_matrix@),
        decreases shells.len() - i,
    {
        proof {
            assert(shells@.take(i + 1).drop_last() =~= shells@.take(i as int));
            lemma_surface_total_grows(shells@, i + 1);
            assert(writable(exported(shells@[i as int])));
        }
        match &shells[i].surfaces {
            Some(surfaces) => {
                let written = write_shell(
                    output,
                    shells[i].id,
                    surfaces.as_slice(),
                    &options.model_matrix,
                );
                match written {
                    Ok(n) => {
                        count = count + n;
                    },
                    Err(_) => {},
                }
            },
            None => {
                proof {
                    reveal(shell_nodes);
                }
            },
        }
        i += 1;
    }
    assert(shells@.take(shells.len() as int) =~= shells@);
    Ok(count)
}

/// A whole scene that is rendered to an image named after the scene file;
/// gives back the number of surfaces.
pub fn write_scene(
    output: &mut String,
    path: &str,
    shells: &[ExportShell],
    options: &NsiFileExportOptions,
) -> (r: Result<usize, std::fmt::Error>)
    requires
        surface_total(shells@) <= usize::MAX,
        forall|i: int| 0 <= i < shells@.len() ==> writable(exported(#[trigger] shells@[i])),
    ensures
        r == Ok::<usize, std::fmt::Error>(surface_total(shells@) as usize),
        exists|image: Seq<char>| #[trigger]
            belongs_to_path(image, path@) && final(output)@ == scene_shells(
                scene_header(
                    old(output)@,
                    image,
                    options.camera_matrix@,
                    options.fov_y_degrees.text@,
                    options.resolution@,
                ),
                shells@,
                options.model_matrix@,
            ),
{
    let image = output_image_filename(path);
    write_scene_for_image(output, image.as_str(), shells, options)
}

} // verus!
