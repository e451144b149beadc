//! The attribute SVG writer: attributes of texts and styles.
use vstd::prelude::*;

use crate::color::Color;
use crate::text::TextAlign;
use crate::svg::{base64, point_text, PointText};
use crate::textual::push_str;

verus! {

/// Weight and slant of a text, in the attribute SVG writer.
#[derive(Debug, Clone, Copy, PartialEq, Eq, Structural)]
pub enum FontWeight {
    Regular,
    Bold,
    Italic,
    BoldItalic,
}

impl FontWeight {
    pub open spec fn svg_spec(self) -> Seq<char> {
        match self {
            FontWeight::Regular => Seq::empty(),
            FontWeight::Bold => "font-weight=\"bold\""@,
            FontWeight::Italic => "font-weight=\"italic\""@,
            FontWeight::BoldItalic => "font-weight=\"bold italic\""@,
        }
    }

    /// The `font-weight` attribute; none for a regular weight.
    pub fn to_svg(&self) -> (r: Result<String, ()>)
        ensures
            r matches Ok(s) && s@ == self.svg_spec(),
    {
        Ok(match self {
            FontWeight::Regular => String::new(),
            FontWeight::Bold => String::from_str("font-weight=\"bold\""),
            FontWeight::Italic => String::from_str("font-weight=\"italic\""),
            FontWeight::BoldItalic => String::from_str("font-weight=\"bold italic\""),
        })
    }
}

impl FontWeight {
    /// The CSS `font-weight` of the weight: "bold" for the bold weights, else "normal".
    pub fn css_weight(&self) -> (r: String)
        ensures
            r@ == (if *self == FontWeight::Bold || *self == FontWeight::BoldItalic { "bold"@ } else { "normal"@ }),
    {
        match self {
            FontWeight::Bold | FontWeight::BoldItalic => String::from_str("bold"),
            _ => String::from_str("normal"),
        }
    }

    /// The CSS font style of the weight: "italic" for the italic weights, else "normal".
    pub fn css_style(&self) -> (r: String)
        ensures
            r@ == (if *self == FontWeight::Italic || *self == FontWeight::BoldItalic { "italic"@ } else { "normal"@ }),
    {
        match self {
            FontWeight::Italic | FontWeight::BoldItalic => String::from_str("italic"),
            _ => String::from_str("normal"),
        }
    }
}

impl TextAlign {
    pub open spec fn svg_spec(self) -> Seq<char> {
        match self {
            TextAlign::Left => "text-anchor=\"left\""@,
            TextAlign::Center => "text-anchor=\"middle\""@,
            TextAlign::Right => "text-anchor=\"right\""@,
        }
    }

    /// The `text-anchor` attribute of the attribute SVG writer.
    pub fn to_svg(&self) -> (r: Result<String, ()>)
        ensures
            r matches Ok(s) && s@ == self.svg_spec(),
    {
        Ok(match self {
            TextAlign::Left => String::from_str("text-anchor=\"left\""),
            TextAlign::Center => String::from_str("text-anchor=\"middle\""),
            TextAlign::Right => String::from_str("text-anchor=\"right\""),
        })
    }
}

/// Fill of a shape, in the attribute SVG writer.
#[derive(Debug, Clone, Copy, PartialEq, Eq, Structural)]
pub enum Fill {
    Color(Color),
}

/// Stroke of a shape, in the attribute SVG writer, with its width (and dash
/// lengths) already written as text.
pub enum StrokeAttrs {
    Full { color: Color, width: String },
    Dashed { color: Color, width: String, on: String, off: String },
}

/// Style of a shape, in the attribute SVG writer.
pub struct StyleAttrs {
    pub fill: Option<Fill>,
    pub stroke: Option<StrokeAttrs>,
}

pub open spec fn fill_svg(fill: Option<Fill>) -> Seq<char> {
    match fill {
        Option::Some(Fill::Color(c)) => "fill='"@ + c.svg_spec() + "'"@,
        Option::None => "fill='none'"@,
    }
}

pub open spec fn stroke_svg(stroke: Option<StrokeAttrs>) -> Seq<char> {
    match stroke {
        Option::Some(StrokeAttrs::Full { color, width }) => "stroke='"@ + color.svg_spec() + "' stroke-width='"@
            + width@ + "'"@,
        Option::Some(StrokeAttrs::Dashed { color, width, on, off }) => "stroke='"@ + color.svg_spec()
            + "' stroke-width='"@ + width@ + "' stroke-dasharray='"@ + on@ + ","@ + off@ + "'"@,
        Option::None => Seq::empty(),
    }
}

pub open spec fn style_svg(style: Option<StyleAttrs>) -> Seq<char> {
    match style {
        Option::Some(s) => fill_svg(s.fill) + " "@ + stroke_svg(s.stroke),
        Option::None => Seq::empty(),
    }
}

fn color_text(c: &Color) -> (r: String)
    ensures
        r@ == c.svg_spec(),
{
    match c.to_svg() {
        Ok(s) => s,
        Err(_) => String::new(),
    }
}

/// The fill attribute: `fill='rgba(..)'`, or `fill='none'`.
pub fn fill_to_svg(fill: &Option<Fill>) -> (r: Result<String, ()>)
    ensures
        r matches Ok(s) && s@ == fill_svg(*fill),
{
    match fill {
        Some(Fill::Color(c)) => {
            let mut s = String::from_str("fill='");
            let t = color_text(c);
            push_str(&mut s, t.as_str());
            push_str(&mut s, "'");
            Ok(s)
        },
        None => Ok(String::from_str("fill='none'")),
    }
}

/// The stroke attributes; none without a stroke.
pub fn stroke_to_svg(stroke: &Option<StrokeAttrs>) -> (r: Result<String, ()>)
    ensures
        r matches Ok(s) && s@ == stroke_svg(*stroke),
{
    match stroke {
        Some(StrokeAttrs::Full { color, width }) => {
            let mut s = String::from_str("stroke='");
            let t = color_text(color);
            push_str(&mut s, t.as_str());
            push_str(&mut s, "' stroke-width='");
            push_str(&mut s, width.as_str());
            push_str(&mut s, "'");
            Ok(s)
        },
        Some(StrokeAttrs::Dashed { color, width, on, off }) => {
            let mut s = String::from_str("stroke='");
            let t = color_text(color);
            push_str(&mut s, t.as_str());
            push_str(&mut s, "' stroke-width='");
            push_str(&mut s, width.as_str());
            push_str(&mut s, "' stroke-dasharray='");
            push_str(&mut s, on.as_str());
            push_str(&mut s, ",");
            push_str(&mut s, off.as_str());
            push_str(&mut s, "'");
            Ok(s)
        },
        None => Ok(String::new()),
    }
}

/// The style attributes: fill, a space, then stroke; none without a style.
pub fn style_to_svg(style: &Option<StyleAttrs>) -> (r: Result<String, ()>)
    ensures
        r matches Ok(s) && s@ == style_svg(*style),
{
    match style {
        Some(v) => {
            let mut s = match fill_to_svg(&v.fill) {
                Ok(f) => f,
                Err(_) => String::new(),
            };
            push_str(&mut s, " ");
            let t = match stroke_to_svg(&v.stroke) {
                Ok(t) => t,
                Err(_) => String::new(),
            };
            push_str(&mut s, t.as_str());
            Ok(s)
        },
        None => Ok(String::new()),
    }
}

} // verus!

verus! {

/// Encoded image data.
pub enum ImageFormat {
    PNG(Vec<u8>),
    JPEG(Vec<u8>),
}

/// A step of a path for the attribute SVG writer and the line PDF writer.
/// The SVG writer takes points with coordinates written as text.
#[derive(Debug, Clone, Copy, PartialEq)]
pub enum LegacyKeypoint<P> {
    /// Straight line to the point.
    Point(P),
    /// Quadratic Bézier curve.
    BezierQuad { to: P, control: P },
    /// Cubic Bézier curve.
    BezierCubic { to: P, control_from: P, control_to: P },
}

/// What a shape of the attribute SVG writer draws; numbers are written as text.
pub enum LegacyShapeKind {
    Text { text: String, align: TextAlign, font_size: String, font_weight: FontWeight },
    Line { from: PointText, to: PointText },
    Circle { radius: String },
    Image { data: ImageFormat },
    Path { keypoints: Vec<LegacyKeypoint<PointText>>, closed: bool },
}

/// A shape of the attribute SVG writer: its center, its size, its style, and what it draws.
pub struct LegacyShape {
    pub center: PointText,
    pub size: PointText,
    pub style: Option<StyleAttrs>,
    pub kind: LegacyShapeKind,
}

/// Why the attribute SVG writer cannot write a shape.
#[derive(Debug, Clone, Copy, PartialEq, Eq, Structural)]
pub enum LegacySvgError {
    /// A path without keypoints.
    NoStart,
}

/// Length of the padded base64 text of `n` bytes.
pub open spec fn padded_base64_len(n: nat) -> nat {
    n / 3 * 4 + if n % 3 > 0 { 4nat } else { 0nat }
}

/// `base64::encode`: the standard base64 of the bytes, with padding. The
/// encoder panics when the encoded length overflows `usize`.
#[verifier::external_body]
#[allow(deprecated)]
fn base64_standard(bytes: &[u8]) -> (r: String)
    requires
        padded_base64_len(bytes@.len()) <= usize::MAX,
    ensures
        r@ == base64(bytes@),
{
    base64::encode(bytes)
}

pub open spec fn keypoint_svg(k: LegacyKeypoint<PointText>) -> Seq<char> {
    match k {
        LegacyKeypoint::Point(p) => "L "@ + point_text(p),
        LegacyKeypoint::BezierQuad { to, control } => "Q "@ + point_text(control) + point_text(to),
        LegacyKeypoint::BezierCubic { to, control_from, control_to } => "C "@ + point_text(control_from)
            + point_text(control_to) + point_text(to),
    }
}

/// The keypoints after the first, each written as a line or curve command.
pub open spec fn keypoints_svg(ks: Seq<LegacyKeypoint<PointText>>) -> Seq<char>
    decreases ks.len(),
{
    if ks.len() == 0 {
        Seq::empty()
    } else {
        keypoints_svg(ks.drop_last()) + keypoint_svg(ks.last())
    }
}

pub open spec fn image_href(d: ImageFormat) -> Seq<char> {
    match d {
        ImageFormat::PNG(bytes) => "data:image/png;base64,"@ + base64(bytes@),
        ImageFormat::JPEG(bytes) => "data:image/jpeg;base64,"@ + base64(bytes@),
    }
}

pub open spec fn image_fits(d: ImageFormat) -> bool {
    match d {
        ImageFormat::PNG(bytes) => padded_base64_len(bytes@.len()) <= usize::MAX,
        ImageFormat::JPEG(bytes) => padded_base64_len(bytes@.len()) <= usize::MAX,
    }
}

/// The element a shape is written as.
pub open spec fn shape_svg(s: LegacyShape) -> Result<Seq<char>, LegacySvgError> {
    let style = style_svg(s.style);
    match s.kind {
        LegacyShapeKind::Text { text, align, font_size, font_weight } => Ok(
            "<text x=\""@ + s.center.x@ + "\" y=\""@ + s.center.y@ + "\" "@ + align.svg_spec() + " font-size=\""@
                + font_size@ + "\" "@ + font_weight.svg_spec() + " "@ + style + ">"@ + text@ + "</text>"@,
        ),
        LegacyShapeKind::Line { from, to } => Ok(
            "<line x1=\""@ + from.x@ + "\" y1=\""@ + from.y@ + "\" x2=\""@ + to.x@ + "\" y2=\""@ + to.y@ + "\" "@
                + style + "/>"@,
        ),
        LegacyShapeKind::Circle { radius } => Ok(
            "<circle cx=\""@ + s.center.x@ + "\" cy=\""@ + s.center.y@ + "\" r=\""@ + radius@ + "\" "@ + style + "/>"@,
        ),
        LegacyShapeKind::Image { data } => Ok(
            "<image x=\""@ + s.center.x@ + "\" y=\""@ + s.center.y@ + "\" width=\""@ + s.size.x@ + "\" height=\""@
                + s.size.y@ + "\" xlink:href=\""@ + image_href(data) + "\"/>"@,
        ),
        LegacyShapeKind::Path { keypoints, closed } => if keypoints@.len() == 0 {
            Err(LegacySvgError::NoStart)
        } else {
            match keypoints@[0] {
                LegacyKeypoint::Point(start) => Ok(
                    "<path d=\""@ + "M "@ + point_text(start) + " "@ + keypoints_svg(keypoints@.drop_first()) + " "@
                        + (if closed { "Z"@ } else { Seq::empty() }) + "\" "@ + style + "/>"@,
                ),
                _ => Err(LegacySvgError::NoStart),
            }
        },
    }
}

/// Whether the attribute SVG writer can write the shape without panicking: a
/// path starts with a point, and image data can be encoded.
pub open spec fn shape_writable(s: LegacyShape) -> bool {
    match s.kind {
        LegacyShapeKind::Image { data } => image_fits(data),
        LegacyShapeKind::Path { keypoints, closed } => keypoints@.len() > 0 ==> keypoints@[0] is Point,
        _ => true,
    }
}

fn push_point_text(s: &mut String, p: &PointText)
    ensures
        final(s)@ == old(s)@ + point_text(*p),
{
    push_str(s, p.x.as_str());
    push_str(s, " ");
    push_str(s, p.y.as_str());
    push_str(s, " ");
    assert(final(s)@ =~= old(s)@ + point_text(*p));
}

fn text_of(r: Result<String, ()>) -> (s: String)
    ensures
        r matches Ok(t) ==> s == t,
{
    match r {
        Ok(t) => t,
        Err(_) => String::new(),
    }
}

impl LegacyShape {
    /// The SVG element of the shape; a path without keypoints is an error.
    pub fn to_svg(&self) -> (r: Result<String, LegacySvgError>)
        requires
            shape_writable(*self),
        ensures
            match (r, shape_svg(*self)) {
                (Ok(a), Ok(b)) => a@ == b,
                (Err(a), Err(b)) => a == b,
                _ => false,
            },
    {
        let style = text_of(style_to_svg(&self.style));
        match &self.kind {
            LegacyShapeKind::Text { text, align, font_size, font_weight } => {
                let mut s = String::from_str("<text x=\"");
                push_str(&mut s, self.center.x.as_str());
                push_str(&mut s, "\" y=\"");
                push_str(&mut s, self.center.y.as_str());
                push_str(&mut s, "\" ");
                let anchor = text_of(align.to_svg());
                push_str(&mut s, anchor.as_str());
                push_str(&mut s, " font-size=\"");
                push_str(&mut s, font_size.as_str());
                push_str(&mut s, "\" ");
                let weight = text_of(font_weight.to_svg());
                push_str(&mut s, weight.as_str());
                push_str(&mut s, " ");
                push_str(&mut s, style.as_str());
                push_str(&mut s, ">");
                push_str(&mut s, text.as_str());
                push_str(&mut s, "</text>");
                Ok(s)
            },
            LegacyShapeKind::Line { from, to } => {
                let mut s = String::from_str("<line x1=\"");
                push_str(&mut s, from.x.as_str());
                push_str(&mut s, "\" y1=\"");
                push_str(&mut s, from.y.as_str());
                push_str(&mut s, "\" x2=\"");
                push_str(&mut s, to.x.as_str());
                push_str(&mut s, "\" y2=\"");
                push_str(&mut s, to.y.as_str());
                push_str(&mut s, "\" ");
                push_str(&mut s, style.as_str());
                push_str(&mut s, "/>");
                Ok(s)
            },
            LegacyShapeKind::Circle { radius } => {
                let mut s = String::from_str("<circle cx=\"");
                push_str(&mut s, self.center.x.as_str());
                push_str(&mut s, "\" cy=\"");
                push_str(&mut s, self.center.y.as_str());
                push_str(&mut s, "\" r=\"");
                push_str(&mut s, radius.as_str());
                push_str(&mut s, "\" ");
                push_str(&mut s, style.as_str());
                push_str(&mut s, "/>");
                Ok(s)
            },
            LegacyShapeKind::Image { data } => {
                let mut s = String::from_str("<image x=\"");
                push_str(&mut s, self.center.x.as_str());
                push_str(&mut s, "\" y=\"");
                push_str(&mut s, self.center.y.as_str());
                push_str(&mut s, "\" width=\"");
                push_str(&mut s, self.size.x.as_str());
                push_str(&mut s, "\" height=\"");
                push_str(&mut s, self.size.y.as_str());
                push_str(&mut s, "\" xlink:href=\"");
                match data {
                    ImageFormat::PNG(d) => {
                        push_str(&mut s, "data:image/png;base64,");
                        let e = base64_standard(d.as_slice());
                        push_str(&mut s, e.as_str());
                    },
                    ImageFormat::JPEG(d) => {
                        push_str(&mut s, "data:image/jpeg;base64,");
                        let e = base64_standard(d.as_slice());
                        push_str(&mut s, e.as_str());
                    },
                }
                push_str(&mut s, "\"/>");
                Ok(s)
            },
            LegacyShapeKind::Path { keypoints, closed } => {
                if keypoints.len() == 0 {
                    return Err(LegacySvgError::NoStart);
                }
                let mut s = String::from_str("<path d=\"");
                match &keypoints[0] {
                    LegacyKeypoint::Point(start) => {
                        push_str(&mut s, "M ");
                        push_point_text(&mut s, start);
                    },
                    _ => {
                        return Err(LegacySvgError::NoStart);
                    },
                }
                push_str(&mut s, " ");
                let ghost before = s@;
                let ghost rest = keypoints@.drop_first();
                let mut i: usize = 1;
                while i < keypoints.len()
                    invariant
                        1 <= i <= keypoints.len(),
                        rest == keypoints@.drop_first(),
                        s@ == before + keypoints_svg(rest.take(i - 1)),
                    decreases keypoints.len() - i,
                {
                    let ghost next = rest.take(i as int);
                    assert(next.drop_last() =~= rest.take(i - 1));
                    assert(next.last() == keypoints@[i as int]);
                    let ghost mid = s@;
                    match &keypoints[i] {
                        LegacyKeypoint::Point(p) => {
                            push_str(&mut s, "L ");
                            push_point_text(&mut s, p);
                        },
                        LegacyKeypoint::BezierQuad { to, control } => {
                            push_str(&mut s, "Q ");
                            push_point_text(&mut s, control);
                            push_point_text(&mut s, to);
                        },
                        LegacyKeypoint::BezierCubic { to, control_from, control_to } => {
                            push_str(&mut s, "C ");
                            push_point_text(&mut s, control_from);
                            push_point_text(&mut s, control_to);
                            push_point_text(&mut s, to);
                        },
                    }
                    assert(s@ =~= mid + keypoint_svg(keypoints@[i as int]));
                    assert(s@ =~= before + keypoints_svg(next));
                    i = i + 1;
                }
                assert(rest.take(rest.len() as int) =~= rest);
                push_str(&mut s, " ");
                if *closed {
                    push_str(&mut s, "Z");
                }
                push_str(&mut s, "\" ");
                push_str(&mut s, style.as_str());
                push_str(&mut s, "/>");
                Ok(s)
            },
        }
    }
}


/// The path data of a path element ends with `Z` exactly when the path is
/// closed: the element ends with the data's last character, then the closing
/// quote, the style and `/>`.
pub proof fn law_path_closed_iff_z(s: LegacyShape)
    requires
        s.kind matches LegacyShapeKind::Path { keypoints, closed } && keypoints@.len() > 0 && keypoints@[0] is Point,
    ensures
        shape_svg(s) matches Result::Ok(t) && {
            let tail = "\" "@ + style_svg(s.style) + "/>"@;
            &&& t.len() > tail.len()
            &&& t.subrange(t.len() - tail.len(), t.len() as int) == tail
            &&& (t[t.len() - tail.len() - 1] == 'Z' <==> s.kind->closed)
        },
{
    reveal_strlit("Z");
    reveal_strlit(" ");
    let tail = "\" "@ + style_svg(s.style) + "/>"@;
    match s.kind {
        LegacyShapeKind::Path { keypoints, closed } => {
            match keypoints@[0] {
                LegacyKeypoint::Point(start) => {
                    let head = "<path d=\""@ + "M "@ + point_text(start) + " "@ + keypoints_svg(keypoints@.drop_first()) + " "@;
                    let z: Seq<char> = if closed { "Z"@ } else { Seq::empty() };
                    let t = head + z + tail;
                    let u = "<path d=\""@ + "M "@ + point_text(start) + " "@ + keypoints_svg(keypoints@.drop_first()) + " "@
                        + z + "\" "@ + style_svg(s.style) + "/>"@;
                    assert(shape_svg(s) == Result::<Seq<char>, LegacySvgError>::Ok(u));
                    assert(u =~= t);
                    assert(t.subrange(t.len() - tail.len(), t.len() as int) =~= tail);
                    if closed {
                        assert(t[t.len() - tail.len() - 1] == z[0]);
                    } else {
                        assert(t[t.len() - tail.len() - 1] == head[head.len() - 1]);
                        assert(head[head.len() - 1] == ' ');
                    }
                },
                _ => {},
            }
        },
        _ => {},
    }
}
} // verus!
