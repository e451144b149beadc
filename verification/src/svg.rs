//! The text of the SVG exporter.
//!
//! [`SvgWriter`] accumulates the SVG markup of a drawing. Numbers that are
//! coordinates or sizes reach it already written (they are floats, printed by
//! the caller); everything else (the markup, names, colors, escaping, embedded
//! fonts) is built here.
use vstd::prelude::*;

use crate::path::{curve_commands_spec, lacks_start, CurvePosition, PathCommand};
use crate::text::TextAlign;
use crate::textual::{decimal, escape_markup, escape_text, hex2, push_char, push_decimal, push_hex2, push_str};

verus! {

/// `std::fmt::Error`, as carried by [`SvgError::WriteError`].
#[verifier::external_type_specification]
#[verifier::external_body]
pub struct ExFmtError(std::fmt::Error);

/// Errors of the SVG export.
#[derive(Debug)]
pub enum SvgError<P> {
    /// Writing into the output failed.
    WriteError(std::fmt::Error),
    /// A curve begins with a segment without start point.
    CurveHasNoStartingPoint(CurvePosition<P>),
    /// No font is set and no default font exists.
    NoDefaultFont,
}

/// Style of a font face (upright, italic, oblique).
#[derive(Debug, Clone, Copy, PartialEq, Eq, Structural)]
pub enum FontStyle {
    Normal,
    Italic,
    Oblique,
}

/// A color with 8-bit red, green, blue and alpha components.
#[derive(Debug, Clone, Copy, PartialEq, Eq, Structural)]
pub struct Rgba8 {
    pub red: u8,
    pub green: u8,
    pub blue: u8,
    pub alpha: u8,
}

/// A stroke, with its width (and dash lengths) already written as text.
pub enum StrokeText {
    Solid { color: Rgba8, width: String },
    Dashed { color: Rgba8, width: String, on: String, off: String },
}

/// A point with its coordinates already written as text.
pub struct PointText {
    pub x: String,
    pub y: String,
}

// ---------------------------------------------------------------------------
// Vocabulary
// ---------------------------------------------------------------------------

/// The CSS `font-weight` of a numeric weight: 300 is "lighter", 700 "bold",
/// 900 "bolder", every other weight "normal".
pub open spec fn weight_name(weight: u16) -> Seq<char> {
    if weight == 300 {
        "lighter"@
    } else if weight == 700 {
        "bold"@
    } else if weight == 900 {
        "bolder"@
    } else {
        "normal"@
    }
}

pub fn font_weight_name(weight: u16) -> (r: String)
    ensures
        r@ == weight_name(weight),
{
    if weight == 300 {
        String::from_str("lighter")
    } else if weight == 700 {
        String::from_str("bold")
    } else if weight == 900 {
        String::from_str("bolder")
    } else {
        String::from_str("normal")
    }
}

pub open spec fn style_name(style: FontStyle) -> Seq<char> {
    match style {
        FontStyle::Normal => "normal"@,
        FontStyle::Italic => "italic"@,
        FontStyle::Oblique => "oblique"@,
    }
}

pub fn font_style_name(style: FontStyle) -> (r: String)
    ensures
        r@ == style_name(style),
{
    match style {
        FontStyle::Normal => String::from_str("normal"),
        FontStyle::Italic => String::from_str("italic"),
        FontStyle::Oblique => String::from_str("oblique"),
    }
}

pub open spec fn anchor_name(align: TextAlign) -> Seq<char> {
    match align {
        TextAlign::Left => "start"@,
        TextAlign::Center => "middle"@,
        TextAlign::Right => "end"@,
    }
}

impl TextAlign {
    /// The SVG `text-anchor` of the alignment.
    pub fn svg_anchor(&self) -> (r: String)
        ensures
            r@ == anchor_name(*self),
    {
        match self {
            TextAlign::Left => String::from_str("start"),
            TextAlign::Center => String::from_str("middle"),
            TextAlign::Right => String::from_str("end"),
        }
    }
}

// ---------------------------------------------------------------------------
// Style
// ---------------------------------------------------------------------------

/// `#RRGGBBAA` in upper-case hexadecimal.
pub open spec fn color_hex(c: Rgba8) -> Seq<char> {
    "#"@ + hex2(c.red) + hex2(c.green) + hex2(c.blue) + hex2(c.alpha)
}

pub open spec fn fill_attr(fill: Option<Rgba8>) -> Seq<char> {
    match fill {
        Option::Some(c) => "fill='"@ + color_hex(c) + "' "@,
        Option::None => "fill='none' "@,
    }
}

pub open spec fn stroke_attr(stroke: Option<StrokeText>) -> Seq<char> {
    match stroke {
        Option::Some(StrokeText::Dashed { color, width, on, off }) => "stroke='"@ + color_hex(color)
            + "' stroke-width='"@ + width@ + "' stroke-dasharray='"@ + on@ + ","@ + off@ + "' "@,
        Option::Some(StrokeText::Solid { color, width }) => "stroke='"@ + color_hex(color)
            + "' stroke-width='"@ + width@ + "' "@,
        Option::None => Seq::empty(),
    }
}

/// The style attributes: the fill (or `fill='none'`), then the stroke, if any.
pub open spec fn style_attrs(fill: Option<Rgba8>, stroke: Option<StrokeText>) -> Seq<char> {
    fill_attr(fill) + stroke_attr(stroke)
}

fn push_color_hex(s: &mut String, c: Rgba8)
    ensures
        final(s)@ == old(s)@ + color_hex(c),
{
    push_str(s, "#");
    push_hex2(s, c.red);
    push_hex2(s, c.green);
    push_hex2(s, c.blue);
    push_hex2(s, c.alpha);
    assert(final(s)@ =~= old(s)@ + color_hex(c));
}

fn push_style(s: &mut String, fill: &Option<Rgba8>, stroke: &Option<StrokeText>)
    ensures
        final(s)@ == old(s)@ + style_attrs(*fill, *stroke),
{
    match fill {
        Some(c) => {
            push_str(s, "fill='");
            push_color_hex(s, *c);
            push_str(s, "' ");
        },
        None => push_str(s, "fill='none' "),
    }
    match stroke {
        Some(StrokeText::Dashed { color, width, on, off }) => {
            push_str(s, "stroke='");
            push_color_hex(s, *color);
            push_str(s, "' stroke-width='");
            push_str(s, width.as_str());
            push_str(s, "' stroke-dasharray='");
            push_str(s, on.as_str());
            push_str(s, ",");
            push_str(s, off.as_str());
            push_str(s, "' ");
        },
        Some(StrokeText::Solid { color, width }) => {
            push_str(s, "stroke='");
            push_color_hex(s, *color);
            push_str(s, "' stroke-width='");
            push_str(s, width.as_str());
            push_str(s, "' ");
        },
        None => {},
    }
    assert(final(s)@ =~= old(s)@ + style_attrs(*fill, *stroke));
}

// ---------------------------------------------------------------------------
// Paths
// ---------------------------------------------------------------------------

pub open spec fn point_text(p: PointText) -> Seq<char> {
    p.x@ + " "@ + p.y@ + " "@
}

/// The path data of one command: `M x y `, `L x y `, `C x1 y1 x2 y2 x y `, `Z`.
pub open spec fn command_text(c: PathCommand<PointText>) -> Seq<char> {
    match c {
        PathCommand::MoveTo(p) => "M "@ + point_text(p),
        PathCommand::LineTo(p) => "L "@ + point_text(p),
        PathCommand::CubicTo(a, b, e) => "C "@ + point_text(a) + point_text(b) + point_text(e),
        PathCommand::Close => "Z"@,
    }
}

/// The path data of a sequence of commands.
pub open spec fn path_data(cs: Seq<PathCommand<PointText>>) -> Seq<char>
    decreases cs.len(),
{
    if cs.len() == 0 {
        Seq::empty()
    } else {
        path_data(cs.drop_last()) + command_text(cs.last())
    }
}

fn push_point(s: &mut String, p: &PointText)
    ensures
        final(s)@ == old(s)@ + point_text(*p),
{
    push_str(s, p.x.as_str());
    push_str(s, " ");
    push_str(s, p.y.as_str());
    push_str(s, " ");
    assert(final(s)@ =~= old(s)@ + point_text(*p));
}

/// Appends the path data of the commands.
pub fn push_path_data(s: &mut String, cs: &Vec<PathCommand<PointText>>)
    ensures
        final(s)@ == old(s)@ + path_data(cs@),
{
    let ghost start = s@;
    let mut i: usize = 0;
    while i < cs.len()
        invariant
            i <= cs.len(),
            s@ == start + path_data(cs@.take(i as int)),
            start == old(s)@,
        decreases cs.len() - i,
    {
        let ghost next = cs@.take(i as int + 1);
        assert(next.drop_last() =~= cs@.take(i as int));
        assert(next.last() == cs@[i as int]);
        let ghost before = s@;
        match &cs[i] {
            PathCommand::MoveTo(p) => {
                push_str(s, "M ");
                push_point(s, p);
            },
            PathCommand::LineTo(p) => {
                push_str(s, "L ");
                push_point(s, p);
            },
            PathCommand::CubicTo(a, b, e) => {
                push_str(s, "C ");
                push_point(s, a);
                push_point(s, b);
                push_point(s, e);
            },
            PathCommand::Close => {
                push_str(s, "Z");
            },
        }
        assert(s@ =~= before + command_text(cs@[i as int]));
        assert(s@ =~= start + path_data(next));
        i = i + 1;
    }
    assert(cs@.take(cs@.len() as int) =~= cs@);
}

/// The drawing commands of a curve, or the error of a curve that begins with
/// a segment without start point.
pub fn curve_commands<P: Copy>(curve: CurvePosition<P>) -> (r: Result<Vec<PathCommand<P>>, SvgError<P>>)
    ensures
        match r {
            Ok(v) => !lacks_start(curve.keypoints@) && v@ == curve_commands_spec(curve.keypoints@, curve.closed),
            Err(e) => lacks_start(curve.keypoints@) && e == SvgError::CurveHasNoStartingPoint(curve),
        },
{
    match curve.commands_from_start() {
        Some(v) => Ok(v),
        None => Err(SvgError::CurveHasNoStartingPoint(curve)),
    }
}

/// The path data of a curve, or nothing when the curve has nowhere to start
/// (its commands are `None`).
pub fn curve_path_data(commands: &Option<Vec<PathCommand<PointText>>>) -> (r: String)
    ensures
        r@ == match *commands {
            Option::Some(cs) => path_data(cs@),
            Option::None => Seq::empty(),
        },
{
    let mut s = String::new();
    match commands {
        Some(cs) => push_path_data(&mut s, cs),
        None => {},
    }
    s
}

// ---------------------------------------------------------------------------
// Embedded fonts
// ---------------------------------------------------------------------------

/// The character of a base64 digit (RFC 4648, section 4).
pub open spec fn base64_char(i: nat) -> char {
    if i < 26 {
        (65 + i) as char
    } else if i < 52 {
        (97 + (i - 26)) as char
    } else if i < 62 {
        (48 + (i - 52)) as char
    } else if i == 62 {
        '+'
    } else {
        '/'
    }
}

/// Base64 (RFC 4648, section 4, with `=` padding) of a sequence of bytes.
pub open spec fn base64(b: Seq<u8>) -> Seq<char>
    decreases b.len(),
{
    if b.len() == 0 {
        Seq::empty()
    } else if b.len() == 1 {
        seq![base64_char(b[0] as nat / 4), base64_char((b[0] as nat % 4) * 16), '=', '=']
    } else if b.len() == 2 {
        seq![
            base64_char(b[0] as nat / 4),
            base64_char((b[0] as nat % 4) * 16 + b[1] as nat / 16),
            base64_char((b[1] as nat % 16) * 4),
            '=',
        ]
    } else {
        seq![
            base64_char(b[0] as nat / 4),
            base64_char((b[0] as nat % 4) * 16 + b[1] as nat / 16),
            base64_char((b[1] as nat % 16) * 4 + b[2] as nat / 64),
            base64_char(b[2] as nat % 64),
        ] + base64(b.subrange(3, b.len() as int))
    }
}

/// `data_encoding::BASE64.encode`: the standard base64 of the bytes, with padding.
/// The encoder asserts that the input is at most `usize::MAX / 512` bytes long.
#[verifier::external_body]
fn base64_encode(bytes: &[u8]) -> (r: String)
    requires
        bytes@.len() <= usize::MAX / 512,
    ensures
        r@ == base64(bytes@),
{
    data_encoding::BASE64.encode(bytes)
}

/// The MIME type of a font file, from its first bytes.
pub open spec fn font_mime(bytes: Seq<u8>) -> Seq<char> {
    if bytes.len() >= 4 && bytes[0] == 0x4F && bytes[1] == 0x54 && bytes[2] == 0x54 && bytes[3] == 0x4F {
        "font/otf"@
    } else if bytes.len() >= 5 && bytes[0] == 0x00 && bytes[1] == 0x01 && bytes[2] == 0x00 && bytes[3] == 0x00
        && bytes[4] == 0x00 {
        "font/ttf"@
    } else {
        "font"@
    }
}

/// The MIME type of a font file, from its first bytes: `OTTO` opens an
/// OpenType font, `00 01 00 00 00` a TrueType font.
pub fn font_mime_type(bytes: &[u8]) -> (r: String)
    ensures
        r@ == font_mime(bytes@),
{
    let n = bytes.len();
    if n >= 4 && bytes[0] == 0x4F && bytes[1] == 0x54 && bytes[2] == 0x54 && bytes[3] == 0x4F {
        String::from_str("font/otf")
    } else if n >= 5 && bytes[0] == 0x00 && bytes[1] == 0x01 && bytes[2] == 0x00 && bytes[3] == 0x00
        && bytes[4] == 0x00 {
        String::from_str("font/ttf")
    } else {
        String::from_str("font")
    }
}

/// The CSS rule that embeds a font: `@font-face{font-family:NAME;src:url("data:MIME;base64,DATA");}`.
pub open spec fn font_face_rule(name: Seq<char>, bytes: Seq<u8>) -> Seq<char> {
    "@font-face{font-family:"@ + name + ";src:url(\"data:"@ + font_mime(bytes) + ";base64,"@ + base64(bytes)
        + "\");}"@
}

/// The CSS rule that embeds the font `name` from its file.
pub fn font_face(name: &str, bytes: &[u8]) -> (r: String)
    requires
        bytes@.len() <= usize::MAX / 512,
    ensures
        r@ == font_face_rule(name@, bytes@),
{
    let mut s = String::from_str("@font-face{font-family:");
    push_str(&mut s, name);
    push_str(&mut s, ";src:url(\"data:");
    let mime = font_mime_type(bytes);
    push_str(&mut s, mime.as_str());
    push_str(&mut s, ";base64,");
    let data = base64_encode(bytes);
    push_str(&mut s, data.as_str());
    push_str(&mut s, "\");}");
    assert(s@ =~= font_face_rule(name@, bytes@));
    s
}

// ---------------------------------------------------------------------------
// The writer
// ---------------------------------------------------------------------------

/// Text of a drawing's elements, accumulated in order.
pub struct SvgWriter {
    pub acc: String,
}

/// `key=value ` for each pair.
pub open spec fn metadata_attrs(m: Seq<(String, String)>) -> Seq<char>
    decreases m.len(),
{
    if m.len() == 0 {
        Seq::empty()
    } else {
        metadata_attrs(m.drop_last()) + m.last().0@ + "="@ + m.last().1@ + " "@
    }
}

/// The transform of a placed element: `translate(X Y) ` and, when there is a
/// rotation, `rotate(R) `.
pub open spec fn placement(x: Seq<char>, y: Seq<char>, rotate: Option<String>) -> Seq<char> {
    "translate("@ + x + " "@ + y + ") "@ + match rotate {
        Option::Some(r) => "rotate("@ + r@ + ") "@,
        Option::None => Seq::empty(),
    }
}

/// How a text is set: its font, anchor, size, weight, style, and placement.
pub struct TextLayout {
    pub font_family: String,
    pub align: TextAlign,
    pub font_size: String,
    pub weight: u16,
    pub style: FontStyle,
    pub x: String,
    pub y: String,
    pub rotate: Option<String>,
}

pub open spec fn text_open_tag(l: TextLayout) -> Seq<char> {
    "<text font-family=\""@ + l.font_family@ + "\" text-anchor=\""@ + anchor_name(l.align)
        + "\" font-size=\""@ + l.font_size@ + "px\" font-weight=\""@ + weight_name(l.weight)
        + "\" font-style=\""@ + style_name(l.style) + "\" transform=\""@ + placement(l.x@, l.y@, l.rotate)
        + "\">"@
}

/// A text element. On a curve, the curve is a path named by `id` and the
/// text follows it; the text content is escaped.
pub open spec fn text_element(l: TextLayout, id: u32, on_curve: Option<Seq<PathCommand<PointText>>>, text: Seq<char>) -> Seq<char> {
    text_open_tag(l) + match on_curve {
        Option::Some(cs) => "<path id=\""@ + decimal(id as nat) + "\" d=\""@ + path_data(cs) + "\"/>"@
            + "<textPath href=\"#"@ + decimal(id as nat) + "\">"@ + escape_markup(text) + "</textPath>"@,
        Option::None => escape_markup(text),
    } + "</text>"@
}

pub open spec fn opt_seq<A>(v: Option<Vec<A>>) -> Option<Seq<A>> {
    match v {
        Option::Some(x) => Option::Some(x@),
        Option::None => Option::None,
    }
}

/// The namespaces of the `svg` element.
pub open spec fn svg_scheme() -> Seq<char> {
    "xmlns=\"http://www.w3.org/2000/svg\" xmlns:xlink=\"http://www.w3.org/1999/xlink\""@
}

/// The view box of a drawing, written as text.
pub struct ViewBoxText {
    pub min_x: String,
    pub min_y: String,
    pub span_x: String,
    pub span_y: String,
}

/// The document: the content, preceded by the font rules when fonts are
/// embedded, wrapped in an `svg` element unless that tag is skipped.
pub open spec fn document(fonts: Option<Seq<char>>, acc: Seq<char>, view_box: Option<ViewBoxText>) -> Seq<char> {
    let content = match fonts {
        Option::Some(f) => "<defs><style>"@ + f + "</style></defs>"@ + acc,
        Option::None => acc,
    };
    match view_box {
        Option::Some(v) => "<svg viewBox=\""@ + v.min_x@ + " "@ + v.min_y@ + " "@ + v.span_x@ + " "@ + v.span_y@
            + "\" "@ + svg_scheme() + ">"@ + content + "</svg>"@,
        Option::None => content,
    }
}

impl SvgWriter {
    /// An empty writer.
    pub fn new() -> (r: SvgWriter)
        ensures
            r.acc@ == Seq::<char>::empty(),
    {
        SvgWriter { acc: String::new() }
    }

    /// Opens a group that carries a style.
    pub fn start_style(&mut self, fill: &Option<Rgba8>, stroke: &Option<StrokeText>)
        ensures
            final(self).acc@ == old(self).acc@ + "<g "@ + style_attrs(*fill, *stroke) + ">"@,
    {
        push_str(&mut self.acc, "<g ");
        push_style(&mut self.acc, fill, stroke);
        push_str(&mut self.acc, ">");
    }

    /// Closes a group that carries a style.
    pub fn end_style(&mut self)
        ensures
            final(self).acc@ == old(self).acc@ + "</g>"@,
    {
        push_str(&mut self.acc, "</g>");
    }

    /// Opens a group carrying the metadata as attributes; nothing when there is none.
    pub fn start_block(&mut self, metadata: &Vec<(String, String)>)
        ensures
            metadata@.len() == 0 ==> final(self).acc@ == old(self).acc@,
            metadata@.len() > 0 ==> final(self).acc@ == old(self).acc@ + "<g "@ + metadata_attrs(metadata@) + ">"@,
    {
        if metadata.len() > 0 {
            push_str(&mut self.acc, "<g ");
            let ghost start = self.acc@;
            let mut i: usize = 0;
            while i < metadata.len()
                invariant
                    i <= metadata.len(),
                    self.acc@ == start + metadata_attrs(metadata@.take(i as int)),
                decreases metadata.len() - i,
            {
                let ghost next = metadata@.take(i as int + 1);
                assert(next.drop_last() =~= metadata@.take(i as int));
                assert(next.last() == metadata@[i as int]);
                let (key, value) = &metadata[i];
                push_str(&mut self.acc, key.as_str());
                push_str(&mut self.acc, "=");
                push_str(&mut self.acc, value.as_str());
                push_str(&mut self.acc, " ");
                assert(self.acc@ =~= start + metadata_attrs(next));
                i = i + 1;
            }
            assert(metadata@.take(metadata@.len() as int) =~= metadata@);
            push_str(&mut self.acc, ">");
        }
    }

    /// Closes a group opened for metadata; nothing when there is none.
    pub fn end_block(&mut self, metadata: &Vec<(String, String)>)
        ensures
            metadata@.len() == 0 ==> final(self).acc@ == old(self).acc@,
            metadata@.len() > 0 ==> final(self).acc@ == old(self).acc@ + "</g>"@,
    {
        if metadata.len() > 0 {
            push_str(&mut self.acc, "</g>");
        }
    }

    /// An ellipse with semi-axes `rx`, `ry`, centered at (`x`, `y`), rotated by `rotate` if given.
    pub fn export_ellipse(&mut self, rx: &str, ry: &str, x: &str, y: &str, rotate: &Option<String>)
        ensures
            final(self).acc@ == old(self).acc@ + "<ellipse rx=\""@ + rx@ + "\" ry=\""@ + ry@ + "\" transform=\""@
                + placement(x@, y@, *rotate) + "\"/>"@,
    {
        push_str(&mut self.acc, "<ellipse rx=\"");
        push_str(&mut self.acc, rx);
        push_str(&mut self.acc, "\" ry=\"");
        push_str(&mut self.acc, ry);
        push_str(&mut self.acc, "\" transform=\"");
        self.push_placement(x, y, rotate);
        push_str(&mut self.acc, "\"/>");
        assert(final(self).acc@ =~= old(self).acc@ + "<ellipse rx=\""@ + rx@ + "\" ry=\""@ + ry@ + "\" transform=\""@
                + placement(x@, y@, *rotate) + "\"/>"@);
    }

    fn push_placement(&mut self, x: &str, y: &str, rotate: &Option<String>)
        ensures
            final(self).acc@ == old(self).acc@ + placement(x@, y@, *rotate),
    {
        push_str(&mut self.acc, "translate(");
        push_str(&mut self.acc, x);
        push_str(&mut self.acc, " ");
        push_str(&mut self.acc, y);
        push_str(&mut self.acc, ") ");
        match rotate {
            Some(r) => {
                push_str(&mut self.acc, "rotate(");
                push_str(&mut self.acc, r.as_str());
                push_str(&mut self.acc, ") ");
            },
            None => {},
        }
        assert(final(self).acc@ =~= old(self).acc@ + placement(x@, y@, *rotate));
    }

    /// An image of the given size whose top left corner is at (`x`, `y`),
    /// rotated by `rotate` if given, embedding the PNG file `png`.
    pub fn export_image(&mut self, width: &str, height: &str, x: &str, y: &str, rotate: &Option<String>, png: &[u8])
        requires
            png@.len() <= usize::MAX / 512,
        ensures
            final(self).acc@ == old(self).acc@ + "<image width=\""@ + width@ + "\" height=\""@ + height@ + "\" x=\""@
                + x@ + "\" y=\""@ + y@ + "\" "@ + match *rotate {
                    Option::Some(r) => " transform=\"rotate("@ + r@ + ")\" "@,
                    Option::None => Seq::empty(),
                } + "href=\"data:image/png;base64,"@ + base64(png@) + "\"/>"@,
    {
        let data = base64_encode(png);
        push_str(&mut self.acc, "<image width=\"");
        push_str(&mut self.acc, width);
        push_str(&mut self.acc, "\" height=\"");
        push_str(&mut self.acc, height);
        push_str(&mut self.acc, "\" x=\"");
        push_str(&mut self.acc, x);
        push_str(&mut self.acc, "\" y=\"");
        push_str(&mut self.acc, y);
        push_str(&mut self.acc, "\" ");
        match rotate {
            Some(r) => {
                push_str(&mut self.acc, " transform=\"rotate(");
                push_str(&mut self.acc, r.as_str());
                push_str(&mut self.acc, ")\" ");
            },
            None => {},
        }
        push_str(&mut self.acc, "href=\"data:image/png;base64,");
        push_str(&mut self.acc, data.as_str());
        push_str(&mut self.acc, "\"/>");
        assert(final(self).acc@ =~= old(self).acc@ + "<image width=\""@ + width@ + "\" height=\""@ + height@ + "\" x=\""@
                + x@ + "\" y=\""@ + y@ + "\" "@ + match *rotate {
                    Option::Some(r) => " transform=\"rotate("@ + r@ + ")\" "@,
                    Option::None => Seq::empty(),
                } + "href=\"data:image/png;base64,"@ + base64(png@) + "\"/>"@);
    }

    /// A path element. Without commands (a curve that has nowhere to start),
    /// only the opening of the element is written and `false` is returned.
    pub fn export_curve(&mut self, commands: &Option<Vec<PathCommand<PointText>>>) -> (r: bool)
        ensures
            r == commands is Some,
            final(self).acc@ == old(self).acc@ + "<path d=\""@ + match *commands {
                Option::Some(cs) => path_data(cs@) + "\"/>"@,
                Option::None => Seq::empty(),
            },
    {
        push_str(&mut self.acc, "<path d=\"");
        match commands {
            Some(cs) => {
                push_path_data(&mut self.acc, cs);
                push_str(&mut self.acc, "\"/>");
                assert(final(self).acc@ =~= old(self).acc@ + "<path d=\""@ + path_data(cs@) + "\"/>"@);
                true
            },
            None => {
                assert(final(self).acc@ =~= old(self).acc@ + "<path d=\""@ + Seq::<char>::empty());
                false
            },
        }
    }

    fn push_text_open_tag(&mut self, l: &TextLayout)
        ensures
            final(self).acc@ == old(self).acc@ + text_open_tag(*l),
    {
        push_str(&mut self.acc, "<text font-family=\"");
        push_str(&mut self.acc, l.font_family.as_str());
        push_str(&mut self.acc, "\" text-anchor=\"");
        let anchor = l.align.svg_anchor();
        push_str(&mut self.acc, anchor.as_str());
        push_str(&mut self.acc, "\" font-size=\"");
        push_str(&mut self.acc, l.font_size.as_str());
        push_str(&mut self.acc, "px\" font-weight=\"");
        let weight = font_weight_name(l.weight);
        push_str(&mut self.acc, weight.as_str());
        push_str(&mut self.acc, "\" font-style=\"");
        let style = font_style_name(l.style);
        push_str(&mut self.acc, style.as_str());
        push_str(&mut self.acc, "\" transform=\"");
        self.push_placement(l.x.as_str(), l.y.as_str(), &l.rotate);
        push_str(&mut self.acc, "\">");
        assert(final(self).acc@ =~= old(self).acc@ + text_open_tag(*l));
    }

    /// A text element; on a curve, the curve is written as a path named by
    /// `id` that the text follows. The text content is escaped.
    pub fn export_text(&mut self, l: &TextLayout, id: u32, on_curve: &Option<Vec<PathCommand<PointText>>>, text: &str)
        ensures
            final(self).acc@ == old(self).acc@ + text_element(*l, id, opt_seq(*on_curve), text@),
    {
        self.push_text_open_tag(l);
        let escaped = escape_text(text);
        let ghost mid = self.acc@;
        match on_curve {
            Some(cs) => {
                push_str(&mut self.acc, "<path id=\"");
                push_decimal(&mut self.acc, id as u64);
                push_str(&mut self.acc, "\" d=\"");
                push_path_data(&mut self.acc, cs);
                push_str(&mut self.acc, "\"/>");
                push_str(&mut self.acc, "<textPath href=\"#");
                push_decimal(&mut self.acc, id as u64);
                push_str(&mut self.acc, "\">");
                push_str(&mut self.acc, escaped.as_str());
                push_str(&mut self.acc, "</textPath>");
            },
            None => {
                push_str(&mut self.acc, escaped.as_str());
            },
        }
        push_str(&mut self.acc, "</text>");
        assert(final(self).acc@ =~= old(self).acc@ + text_element(*l, id, opt_seq(*on_curve), text@));
    }

    /// Takes the accumulated text out, leaving the writer empty.
    pub fn take(&mut self) -> (r: String)
        ensures
            r@ == old(self).acc@,
            final(self).acc@ == Seq::<char>::empty(),
    {
        let mut r = String::new();
        std::mem::swap(&mut r, &mut self.acc);
        r
    }
}

/// The document of a drawing: `fonts` are the font rules when fonts are
/// embedded; `view_box` is absent when the `svg` tag is skipped.
pub fn svg_document(fonts: Option<String>, acc: String, view_box: Option<ViewBoxText>) -> (r: String)
    ensures
        r@ == document(
            match fonts {
                Option::Some(f) => Option::Some(f@),
                Option::None => Option::None,
            },
            acc@,
            view_box,
        ),
{
    let content = match &fonts {
        Some(f) => {
            let mut c = String::from_str("<defs><style>");
            push_str(&mut c, f.as_str());
            push_str(&mut c, "</style></defs>");
            push_str(&mut c, acc.as_str());
            c
        },
        None => acc,
    };
    match &view_box {
        Some(v) => {
            let mut s = String::from_str("<svg viewBox=\"");
            push_str(&mut s, v.min_x.as_str());
            push_str(&mut s, " ");
            push_str(&mut s, v.min_y.as_str());
            push_str(&mut s, " ");
            push_str(&mut s, v.span_x.as_str());
            push_str(&mut s, " ");
            push_str(&mut s, v.span_y.as_str());
            push_str(&mut s, "\" ");
            push_str(&mut s, "xmlns=\"http://www.w3.org/2000/svg\" xmlns:xlink=\"http://www.w3.org/1999/xlink\"");
            push_str(&mut s, ">");
            push_str(&mut s, content.as_str());
            push_str(&mut s, "</svg>");
            s
        },
        None => content,
    }
}

} // verus!
