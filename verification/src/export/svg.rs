//! A figure as vector text, which is what a report wants: it stays sharp at any zoom and prints
//! at the printer's resolution rather than the file's.
//!
//! Text is emitted for the viewer to draw in whatever sans-serif it has, *anchored* at its start,
//! middle or end, so that a viewer whose font is a little wider or narrower moves the text within
//! the room reserved for it instead of walking out of the figure.
use vstd::prelude::*;

use crate::colors::Rgb;
use crate::text::{
    chars_of, dec, dec_int, fixed, has_prefix, hex_byte_lower, push_dec, push_fixed,
    push_hex_byte_lower, push_int,
};

verus! {

broadcast use vstd::seq_lib::group_seq_properties;

/// The fonts to draw text in, in the order of preference.
pub const FONT_STACK: &'static str = "Ubuntu, 'DejaVu Sans', Helvetica, Arial, sans-serif";

/// A rectangle of the figure, in hundredths of a unit.
#[derive(Clone, Copy, PartialEq, Eq, Structural, Debug)]
pub struct Frame {
    pub left: i32,
    pub top: i32,
    pub right: i32,
    pub bottom: i32,
}

impl Frame {
    pub open spec fn wide(self) -> int {
        self.right - self.left
    }

    pub open spec fn high(self) -> int {
        self.bottom - self.top
    }

    pub fn width(&self) -> (r: i64)
        ensures
            r == self.wide(),
    {
        self.right as i64 - self.left as i64
    }

    pub fn height(&self) -> (r: i64)
        ensures
            r == self.high(),
    {
        self.bottom as i64 - self.top as i64
    }
}

/// A colour and how opaque it is.
#[derive(Clone, Copy, PartialEq, Eq, Structural, Debug)]
pub struct Ink {
    pub color: Rgb,
    pub alpha: u8,
}

/// Where the anchor of a line of text is along it, or across it.
#[derive(Clone, Copy, PartialEq, Eq, Structural, Debug)]
pub enum Align {
    Min,
    Center,
    Max,
}

/// A number of hundredths written with two decimals at most, and no zeros to end them.
pub open spec fn num_spec(n: int) -> Seq<char> {
    if n % 100 == 0 {
        dec_int(n / 100)
    } else if n % 10 == 0 {
        fixed(n / 10, 1)
    } else {
        fixed(n, 2)
    }
}

/// Writes a number of hundredths. Two decimals are a fiftieth of a pixel: below anything a
/// renderer can show, and they keep a series of 2000 points to a readable file size.
pub fn push_num(out: &mut String, n: i64)
    ensures
        final(out)@ == old(out)@ + num_spec(n as int),
{
    if n % 100 == 0 {
        push_int(out, n / 100);
    } else if n % 10 == 0 {
        push_fixed(out, n / 10, 1);
    } else {
        push_fixed(out, n, 2);
    }
}

/// What a character becomes in the document's text.
pub open spec fn escaped_char(c: char) -> Seq<char> {
    if c == '&' {
        "&amp;"@
    } else if c == '<' {
        "&lt;"@
    } else if c == '>' {
        "&gt;"@
    } else if c == '"' {
        "&quot;"@
    } else if c == '\'' {
        "&apos;"@
    } else {
        seq![c]
    }
}

/// A text with everything that markup is made of written out.
pub open spec fn escaped(s: Seq<char>) -> Seq<char>
    decreases s.len(),
{
    if s.len() == 0 {
        Seq::empty()
    } else {
        escaped(s.drop_last()) + escaped_char(s.last())
    }
}

/// A text with everything that markup is made of written out.
pub fn escape(text: &str) -> (r: String)
    ensures
        r@ == escaped(text@),
{
    let chars = chars_of(text);
    let mut out = String::new();
    let mut i: usize = 0;
    assert(chars@.take(0) =~= Seq::<char>::empty());
    while i < chars.len()
        invariant
            i <= chars@.len(),
            out@ == escaped(chars@.take(i as int)),
        decreases chars@.len() - i,
    {
        assert(chars@.take(i + 1).drop_last() =~= chars@.take(i as int));
        let c = chars[i];
        let ghost before = out@;
        if c == '&' {
            out.append("&amp;");
        } else if c == '<' {
            out.append("&lt;");
        } else if c == '>' {
            out.append("&gt;");
        } else if c == '"' {
            out.append("&quot;");
        } else if c == '\'' {
            out.append("&apos;");
        } else {
            out.push(c);
            assert(out@ =~= before + seq![c]);
        }
        i += 1;
    }
    assert(chars@.take(chars@.len() as int) =~= text@);
    out
}

/// Markup in a name cannot break the document: nothing that opens or closes a tag or an
/// attribute is left in an escaped text.
pub proof fn no_markup_is_left(s: Seq<char>, i: int)
    requires
        0 <= i < escaped(s).len(),
    ensures
        escaped(s)[i] != '<',
        escaped(s)[i] != '>',
        escaped(s)[i] != '"',
        escaped(s)[i] != '\'',
    decreases s.len(),
{
    reveal_strlit("&amp;");
    reveal_strlit("&lt;");
    reveal_strlit("&gt;");
    reveal_strlit("&quot;");
    reveal_strlit("&apos;");
    let rest = escaped(s.drop_last());
    if i < rest.len() {
        no_markup_is_left(s.drop_last(), i);
        assert(escaped(s)[i] == rest[i]);
    } else {
        assert(escaped(s)[i] == escaped_char(s.last())[i - rest.len()]);
    }
}

/// Escaping goes character by character: a joined text becomes the joined escaped texts.
pub proof fn escaping_distributes(a: Seq<char>, b: Seq<char>)
    ensures
        escaped(a + b) == escaped(a) + escaped(b),
    decreases b.len(),
{
    if b.len() == 0 {
        assert(a + b =~= a);
        assert(escaped(a) + escaped(b) =~= escaped(a));
    } else {
        let front = b.drop_last();
        escaping_distributes(a, front);
        assert((a + b).drop_last() =~= a + front);
        assert((a + b).last() == b.last());
        assert(escaped(a + b) =~= escaped(a) + escaped(b));
    }
}

/// The entity at a place of a text, with the character it stands for.
pub open spec fn entity_at(s: Seq<char>, at: int) -> Option<(char, int)> {
    let rest = s.skip(at);
    if has_prefix(rest, "&amp;"@) {
        Some(('&', 5))
    } else if has_prefix(rest, "&lt;"@) {
        Some(('<', 4))
    } else if has_prefix(rest, "&gt;"@) {
        Some(('>', 4))
    } else if has_prefix(rest, "&quot;"@) {
        Some(('"', 6))
    } else if has_prefix(rest, "&apos;"@) {
        Some(('\'', 6))
    } else {
        None
    }
}

/// A text with its entities read back, from a place on, in one pass.
pub open spec fn unescaped(s: Seq<char>, from: int) -> Seq<char>
    decreases s.len() - from,
{
    if from < 0 || from >= s.len() {
        Seq::empty()
    } else {
        match entity_at(s, from) {
            Some((c, len)) if 0 < len <= s.len() - from => seq![c] + unescaped(s, from + len),
            _ => seq![s[from]] + unescaped(s, from + 1),
        }
    }
}

proof fn lemma_entities()
    ensures
        "&amp;"@ == seq!['&', 'a', 'm', 'p', ';'],
        "&lt;"@ == seq!['&', 'l', 't', ';'],
        "&gt;"@ == seq!['&', 'g', 't', ';'],
        "&quot;"@ == seq!['&', 'q', 'u', 'o', 't', ';'],
        "&apos;"@ == seq!['&', 'a', 'p', 'o', 's', ';'],
{
    reveal_strlit("&amp;");
    reveal_strlit("&lt;");
    reveal_strlit("&gt;");
    reveal_strlit("&quot;");
    reveal_strlit("&apos;");
    assert("&amp;"@ =~= seq!['&', 'a', 'm', 'p', ';']);
    assert("&lt;"@ =~= seq!['&', 'l', 't', ';']);
    assert("&gt;"@ =~= seq!['&', 'g', 't', ';']);
    assert("&quot;"@ =~= seq!['&', 'q', 'u', 'o', 't', ';']);
    assert("&apos;"@ =~= seq!['&', 'a', 'p', 'o', 's', ';']);
}

proof fn lemma_first_escaped(done: Seq<char>, c: char, rest: Seq<char>)
    ensures
        ({
            let s = done + (escaped_char(c) + rest);
            let at = done.len() as int;
            let len = escaped_char(c).len();
            &&& len > 0
            &&& (escaped_char(c).len() == 1 ==> s[at] == c && c != '&' && entity_at(s, at) is None)
            &&& (escaped_char(c).len() != 1 ==> entity_at(s, at) == Some((c, len as int)))
        }),
{
    lemma_entities();
    let s = done + (escaped_char(c) + rest);
    let at = done.len() as int;
    let tail = s.skip(at);
    assert(tail =~= escaped_char(c) + rest);
    let own = escaped_char(c);
    assert(tail.take(own.len() as int) =~= own);
    if own.len() == 1 {
        assert(own[0] == c);
        assert(tail[0] == c);
        lemma_no_prefix(tail, "&amp;"@);
        lemma_no_prefix(tail, "&lt;"@);
        lemma_no_prefix(tail, "&gt;"@);
        lemma_no_prefix(tail, "&quot;"@);
        lemma_no_prefix(tail, "&apos;"@);
    } else {
        assert(tail[0] == own[0] && tail[1] == own[1] && tail[2] == own[2]);
        assert(has_prefix(tail, own));
        lemma_prefixes(tail);
    }
}

proof fn lemma_no_prefix(s: Seq<char>, prefix: Seq<char>)
    requires
        s.len() > 0,
        prefix.len() > 0,
        prefix[0] == '&',
        s[0] != '&',
    ensures
        !has_prefix(s, prefix),
{
    if has_prefix(s, prefix) {
        assert(s.take(prefix.len() as int)[0] == s[0]);
    }
}

proof fn lemma_prefixes(s: Seq<char>)
    ensures
        has_prefix(s, "&amp;"@) ==> s.len() >= 5 && s[1] == 'a' && s[2] == 'm',
        has_prefix(s, "&lt;"@) ==> s.len() >= 4 && s[1] == 'l',
        has_prefix(s, "&gt;"@) ==> s.len() >= 4 && s[1] == 'g',
        has_prefix(s, "&quot;"@) ==> s.len() >= 6 && s[1] == 'q',
        has_prefix(s, "&apos;"@) ==> s.len() >= 6 && s[1] == 'a' && s[2] == 'p',
{
    lemma_entities();
    if has_prefix(s, "&amp;"@) {
        assert(s.take(5)[1] == s[1] && s.take(5)[2] == s[2]);
    }
    if has_prefix(s, "&lt;"@) {
        assert(s.take(4)[1] == s[1]);
    }
    if has_prefix(s, "&gt;"@) {
        assert(s.take(4)[1] == s[1]);
    }
    if has_prefix(s, "&quot;"@) {
        assert(s.take(6)[1] == s[1]);
    }
    if has_prefix(s, "&apos;"@) {
        assert(s.take(6)[1] == s[1] && s.take(6)[2] == s[2]);
    }
}

/// Reading the entities of an escaped text back gives the text.
pub proof fn escaping_can_be_undone(s: Seq<char>)
    ensures
        unescaped(escaped(s), 0) == s,
{
    lemma_undone(Seq::empty(), s);
    assert(Seq::<char>::empty() + escaped(s) =~= escaped(s));
}

proof fn lemma_undone(done: Seq<char>, s: Seq<char>)
    ensures
        unescaped(done + escaped(s), done.len() as int) == s,
    decreases s.len(),
{
    let all = done + escaped(s);
    let at = done.len() as int;
    if s.len() > 0 {
        let c = s[0];
        let rest = s.skip(1);
        assert(s =~= seq![c] + rest);
        escaping_distributes(seq![c], rest);
        assert(seq![c].drop_last() =~= Seq::empty());
        assert(escaped(seq![c]) =~= escaped_char(c)) by {
            assert(escaped(Seq::<char>::empty()) =~= Seq::empty());
        }
        lemma_first_escaped(done, c, escaped(rest));
        assert(all == done + (escaped_char(c) + escaped(rest)));
        let next = done + escaped_char(c);
        assert(all =~= next + escaped(rest));
        lemma_undone(next, rest);
        assert(unescaped(all, at) =~= seq![c] + rest);
    }
}

/// Every ampersand of an escaped text begins one of the five entities.
pub proof fn every_ampersand_begins_an_entity(s: Seq<char>, i: int)
    requires
        0 <= i < escaped(s).len(),
        escaped(s)[i] == '&',
    ensures
        entity_at(escaped(s), i) is Some,
{
    lemma_ampersands(Seq::empty(), s, i);
    assert(Seq::<char>::empty() + escaped(s) =~= escaped(s));
}

proof fn lemma_ampersands(done: Seq<char>, s: Seq<char>, i: int)
    requires
        0 <= i < escaped(s).len(),
        escaped(s)[i] == '&',
    ensures
        entity_at(done + escaped(s), done.len() + i) is Some,
    decreases s.len(),
{
    lemma_entities();
    let all = done + escaped(s);
    if s.len() > 0 {
        let c = s[0];
        let rest = s.skip(1);
        assert(s =~= seq![c] + rest);
        escaping_distributes(seq![c], rest);
        assert(escaped(seq![c]) =~= escaped_char(c)) by {
            assert(seq![c].drop_last() =~= Seq::empty());
            assert(escaped(Seq::<char>::empty()) =~= Seq::empty());
        }
        lemma_first_escaped(done, c, escaped(rest));
        assert(all == done + (escaped_char(c) + escaped(rest)));
        let len = escaped_char(c).len() as int;
        if i < len {
            assert(escaped(s)[i] == escaped_char(c)[i]);
            assert(i == 0);
        } else {
            let next = done + escaped_char(c);
            assert(all =~= next + escaped(rest));
            assert(escaped(rest)[i - len] == '&');
            lemma_ampersands(next, rest, i - len);
        }
    }
}

/// A colour as six hexadecimal digits.
pub open spec fn hex_spec(c: Rgb) -> Seq<char> {
    "#"@ + hex_byte_lower(c.r as int) + hex_byte_lower(c.g as int) + hex_byte_lower(c.b as int)
}

/// How opaque a colour is, in hundredths.
pub open spec fn opacity_hundredths(alpha: u8) -> int {
    (200 * alpha + 255) / 510
}

/// The attribute that says how opaque a colour is, where it is not wholly so.
pub open spec fn opacity_spec(name: Seq<char>, alpha: u8) -> Seq<char> {
    if alpha == 255 {
        Seq::empty()
    } else {
        " "@ + name + "=\""@ + num_spec(opacity_hundredths(alpha)) + "\""@
    }
}

fn push_opacity(out: &mut String, name: &str, alpha: u8)
    ensures
        final(out)@ == old(out)@ + opacity_spec(name@, alpha),
{
    if alpha != 255 {
        let mut s = " ".to_owned();
        s.append(name);
        s.append("=\"");
        let n: i64 = (200 * alpha as i64 + 255) / 510;
        push_num(&mut s, n);
        s.append("\"");
        out.append(s.as_str());
    } else {
        assert(out@ =~= out@ + Seq::<char>::empty());
    }
}

/// A colour as six hexadecimal digits.
pub fn hex(c: Rgb) -> (r: String)
    ensures
        r@ == hex_spec(c),
{
    let mut out = "#".to_owned();
    push_hex_byte_lower(&mut out, c.r);
    push_hex_byte_lower(&mut out, c.g);
    push_hex_byte_lower(&mut out, c.b);
    out
}

/// An attribute with a number of hundredths for its value.
pub open spec fn attr(name: Seq<char>, n: int) -> Seq<char> {
    " "@ + name + "=\""@ + num_spec(n) + "\""@
}

fn push_attr(out: &mut String, name: &str, n: i64)
    ensures
        final(out)@ == old(out)@ + attr(name@, n as int),
{
    let mut s = " ".to_owned();
    s.append(name);
    s.append("=\"");
    push_num(&mut s, n);
    s.append("\"");
    out.append(s.as_str());
}

/// The attributes that place a rectangle.
pub open spec fn geometry(f: Frame) -> Seq<char> {
    attr("x"@, f.left as int) + attr("y"@, f.top as int) + attr("width"@, f.wide()) + attr(
        "height"@,
        f.high(),
    )
}

fn geometry_of(f: &Frame) -> (r: String)
    ensures
        r@ == geometry(*f),
{
    let mut s = String::new();
    push_attr(&mut s, "x", f.left as i64);
    assert(s@ =~= attr("x"@, f.left as int));
    push_attr(&mut s, "y", f.top as i64);
    push_attr(&mut s, "width", f.width());
    push_attr(&mut s, "height", f.height());
    s
}

/// Two cells side by side are written so that one's right edge is the other's left edge: sizes
/// are differences of the edges that are written, so no seam is left between them.
pub proof fn tiled_cells_share_their_edge(a: Frame, b: Frame)
    requires
        a.right == b.left,
    ensures
        a.left + a.wide() == b.left,
{
}

/// A filled rectangle.
pub open spec fn fill_spec(f: Frame, ink: Ink) -> Seq<char> {
    "<rect"@ + geometry(f) + " fill=\""@ + hex_spec(ink.color) + "\""@ + opacity_spec(
        "fill-opacity"@,
        ink.alpha,
    ) + "/>\n"@
}

/// One cell of a grid of them, filled flat. Unlike a filled rectangle its edges are *not*
/// anti-aliased: two cells sharing an edge would each cover their side of it partially, and the
/// background would show through the seam.
pub open spec fn cell_spec(f: Frame, ink: Ink) -> Seq<char> {
    "<rect"@ + geometry(f) + " fill=\""@ + hex_spec(ink.color) + "\""@ + opacity_spec(
        "fill-opacity"@,
        ink.alpha,
    ) + " shape-rendering=\"crispEdges\"/>\n"@
}

/// The outline of a rectangle.
pub open spec fn stroke_spec(f: Frame, ink: Ink, width: int) -> Seq<char> {
    "<rect"@ + geometry(f) + " fill=\"none\" stroke=\""@ + hex_spec(ink.color) + "\""@ + attr(
        "stroke-width"@,
        width,
    ) + opacity_spec("stroke-opacity"@, ink.alpha) + "/>\n"@
}

/// The first `n` points of a line, as coordinates.
pub open spec fn points_spec(points: Seq<(i32, i32)>, n: nat) -> Seq<char>
    decreases n,
{
    if n == 0 {
        Seq::empty()
    } else {
        let p = points[n - 1];
        points_spec(points, (n - 1) as nat) + if n > 1 {
            " "@
        } else {
            Seq::empty()
        } + num_spec(p.0 as int) + ","@ + num_spec(p.1 as int)
    }
}

/// An open line through points.
pub open spec fn polyline_spec(points: Seq<(i32, i32)>, ink: Ink, width: int) -> Seq<char> {
    "<polyline fill=\"none\" stroke=\""@ + hex_spec(ink.color) + "\""@ + attr("stroke-width"@, width)
        + " stroke-linecap=\"round\" stroke-linejoin=\"round\""@ + opacity_spec(
        "stroke-opacity"@,
        ink.alpha,
    ) + " points=\""@ + points_spec(points, points.len()) + "\"/>\n"@
}

/// How a text is anchored.
pub open spec fn anchor_spec(align: Align) -> Seq<char> {
    match align {
        Align::Min => "start"@,
        Align::Center => "middle"@,
        Align::Max => "end"@,
    }
}

fn anchor_for(align: Align) -> (r: &'static str)
    ensures
        r@ == anchor_spec(align),
{
    match align {
        Align::Min => "start",
        Align::Center => "middle",
        Align::Max => "end",
    }
}

/// Where the baseline of a line of text is, whose box is `height` tall with the baseline
/// `ascent` down, and sits with its top, middle or bottom at `y`.
pub open spec fn baseline_spec(y: int, align: Align, ascent: int, height: int) -> int {
    match align {
        Align::Min => y + ascent,
        Align::Center => y + ascent - height / 2,
        Align::Max => y + ascent - height,
    }
}

/// Where the baseline of a line of text is.
pub fn baseline(y: i32, align: Align, ascent: u32, height: u32) -> (r: i64)
    ensures
        r == baseline_spec(y as int, align, ascent as int, height as int),
{
    match align {
        Align::Min => y as i64 + ascent as i64,
        Align::Center => y as i64 + ascent as i64 - (height / 2) as i64,
        Align::Max => y as i64 + ascent as i64 - height as i64,
    }
}

/// A line of text on its baseline.
pub open spec fn text_spec(
    x: int,
    y: int,
    align: Align,
    text: Seq<char>,
    size: int,
    ink: Ink,
) -> Seq<char> {
    "<text"@ + attr("x"@, x) + attr("y"@, y) + " font-family=\""@ + FONT_STACK@ + "\""@ + attr(
        "font-size"@,
        size,
    ) + " fill=\""@ + hex_spec(ink.color) + "\""@ + opacity_spec("fill-opacity"@, ink.alpha)
        + " text-anchor=\""@ + anchor_spec(align) + "\">"@ + escaped(text) + "</text>\n"@
}

/// A line of text turned a quarter turn anticlockwise about a point: reading bottom to top.
pub open spec fn rotated_spec(
    x: int,
    y: int,
    center: int,
    text: Seq<char>,
    size: int,
    ink: Ink,
) -> Seq<char> {
    "<text"@ + attr("x"@, x) + attr("y"@, y) + " transform=\"rotate(-90 "@ + num_spec(x) + " "@
        + num_spec(center) + ")\" font-family=\""@ + FONT_STACK@ + "\""@ + attr("font-size"@, size)
        + " fill=\""@ + hex_spec(ink.color) + "\""@ + opacity_spec("fill-opacity"@, ink.alpha)
        + " text-anchor=\"middle\">"@ + escaped(text) + "</text>\n"@
}

/// The stops of a gradient, from its start on: how far along in hundredths, and the colour.
pub open spec fn stops_spec(stops: Seq<(u8, Ink)>, n: nat) -> Seq<char>
    decreases n,
{
    if n == 0 {
        Seq::empty()
    } else {
        let (at, ink) = stops[n - 1];
        stops_spec(stops, (n - 1) as nat) + "<stop"@ + attr(
            "offset"@,
            if at > 100 {
                100
            } else {
                at as int
            },
        ) + " stop-color=\""@ + hex_spec(ink.color) + "\""@ + opacity_spec(
            "stop-opacity"@,
            ink.alpha,
        ) + "/>"@
    }
}

/// The definition of a gradient from the top to the bottom of what it fills.
pub open spec fn gradient_spec(id: nat, stops: Seq<(u8, Ink)>) -> Seq<char> {
    "<linearGradient id=\"grad"@ + dec(id) + "\" x1=\"0\" y1=\"0\" x2=\"0\" y2=\"1\">"@
        + stops_spec(stops, stops.len()) + "</linearGradient>\n"@
}

/// A cell filled with a gradient.
pub open spec fn gradient_fill_spec(f: Frame, id: nat) -> Seq<char> {
    "<rect"@ + geometry(f) + " fill=\"url(#grad"@ + dec(id)
        + ")\" shape-rendering=\"crispEdges\"/>\n"@
}

/// The definition of a clip.
pub open spec fn clip_spec(id: nat, f: Frame) -> Seq<char> {
    "<clipPath id=\"clip"@ + dec(id) + "\"><rect"@ + attr("x"@, f.left as int) + attr(
        "y"@,
        f.top as int,
    ) + attr(
        "width"@,
        if f.wide() < 0 {
            0
        } else {
            f.wide()
        },
    ) + attr(
        "height"@,
        if f.high() < 0 {
            0
        } else {
            f.high()
        },
    ) + "/></clipPath>\n"@
}

/// One thing that was written to a document's body.
pub enum Mark {
    /// A group that is clipped.
    Open(nat),
    /// The end of the group.
    Close,
    /// An element.
    Element(Seq<char>),
}

/// What a mark is written as.
pub open spec fn mark_text(m: Mark) -> Seq<char> {
    match m {
        Mark::Open(id) => "<g clip-path=\"url(#clip"@ + dec(id) + ")\">\n"@,
        Mark::Close => "</g>\n"@,
        Mark::Element(text) => text,
    }
}

/// What marks are written as, one after the other.
pub open spec fn written(marks: Seq<Mark>) -> Seq<char>
    decreases marks.len(),
{
    if marks.len() == 0 {
        Seq::empty()
    } else {
        written(marks.drop_last()) + mark_text(marks.last())
    }
}

/// How many groups are open after marks.
pub open spec fn open_groups(marks: Seq<Mark>) -> int
    decreases marks.len(),
{
    if marks.len() == 0 {
        0
    } else {
        open_groups(marks.drop_last()) + match marks.last() {
            Mark::Open(_) => 1int,
            Mark::Close => -1int,
            Mark::Element(_) => 0int,
        }
    }
}

/// Whether a group is never closed that is not open, and never opened inside another.
pub open spec fn well_nested(marks: Seq<Mark>) -> bool
    decreases marks.len(),
{
    marks.len() == 0 || (well_nested(marks.drop_last()) && 0 <= open_groups(marks) <= 1)
}

/// A document being written.
pub struct SvgCanvas {
    /// Figure units, in hundredths.
    pub size: (u64, u64),
    /// Physical size the figure is meant to be printed at, in hundredths of a millimetre.
    pub size_mm: (u64, u64),
    pub defs: String,
    pub body: String,
    pub clips: u64,
    pub clipped: bool,
    pub gradients: u64,
    pub marks: Ghost<Seq<Mark>>,
}

/// The finished document.
pub open spec fn document(
    size: (u64, u64),
    size_mm: (u64, u64),
    defs: Seq<char>,
    body: Seq<char>,
) -> Seq<char> {
    "<?xml version=\"1.0\" encoding=\"UTF-8\" standalone=\"no\"?>\n"@
        + "<svg xmlns=\"http://www.w3.org/2000/svg\" version=\"1.1\" width=\""@ + num_spec(
        size_mm.0 as int,
    ) + "mm\" height=\""@ + num_spec(size_mm.1 as int) + "mm\" viewBox=\"0 0 "@ + num_spec(
        size.0 as int,
    ) + " "@ + num_spec(size.1 as int) + "\">\n"@ + "<!-- exported by rapid-analyzer -->\n"@ + if (
    defs.len() == 0) {
        Seq::empty()
    } else {
        "<defs>\n"@ + defs + "</defs>\n"@
    } + body + "</svg>\n"@
}

impl SvgCanvas {
    /// The body is what was marked, and one group at most is open.
    pub open spec fn wf(self) -> bool {
        &&& self.body@ == written(self.marks@)
        &&& well_nested(self.marks@)
        &&& open_groups(self.marks@) == if self.clipped {
            1int
        } else {
            0int
        }
        &&& self.size.0 <= i64::MAX && self.size.1 <= i64::MAX
        &&& self.size_mm.0 <= i64::MAX && self.size_mm.1 <= i64::MAX
    }

    /// Whether a canvas is another with one more mark, and the definitions it needs.
    pub open spec fn marked(self, before: SvgCanvas, m: Mark, defs: Seq<char>) -> bool {
        &&& self.marks@ == before.marks@.push(m)
        &&& self.defs@ == before.defs@ + defs
        &&& self.size == before.size
        &&& self.size_mm == before.size_mm
    }

    pub fn new(size: (u64, u64), size_mm: (u64, u64)) -> (r: Self)
        requires
            size.0 <= i64::MAX,
            size.1 <= i64::MAX,
            size_mm.0 <= i64::MAX,
            size_mm.1 <= i64::MAX,
        ensures
            r.wf(),
            r.size == size,
            r.size_mm == size_mm,
            r.defs@.len() == 0,
            r.marks@.len() == 0,
            !r.clipped,
            r.clips == 0,
            r.gradients == 0,
    {
        SvgCanvas {
            size,
            size_mm,
            defs: String::new(),
            body: String::new(),
            clips: 0,
            clipped: false,
            gradients: 0,
            marks: Ghost(Seq::empty()),
        }
    }

    fn element(&mut self, text: &str)
        requires
            old(self).wf(),
        ensures
            final(self).wf(),
            final(self).marked(*old(self), Mark::Element(text@), Seq::empty()),
            final(self).clipped == old(self).clipped,
            final(self).clips == old(self).clips,
            final(self).gradients == old(self).gradients,
    {
        let ghost before = self.marks@;
        self.body.append(text);
        proof {
            self.marks@ = before.push(Mark::Element(text@));
            assert(self.marks@.drop_last() =~= before);
            assert(self.defs@ =~= self.defs@ + Seq::<char>::empty());
        }
    }

    /// Fills a rectangle. One with no area, or no colour, is not drawn.
    pub fn fill_rect(&mut self, f: Frame, ink: Ink)
        requires
            old(self).wf(),
        ensures
            final(self).wf(),
            if ink.alpha == 0 || f.wide() <= 0 || f.high() <= 0 {
                *final(self) == *old(self)
            } else {
                final(self).marked(*old(self), Mark::Element(fill_spec(f, ink)), Seq::empty())
            },
            final(self).clipped == old(self).clipped,
            final(self).clips == old(self).clips,
            final(self).gradients == old(self).gradients,
    {
        if ink.alpha == 0 || f.width() <= 0 || f.height() <= 0 {
            return;
        }
        let mut s = "<rect".to_owned();
        s.append(geometry_of(&f).as_str());
        s.append(" fill=\"");
        s.append(hex(ink.color).as_str());
        s.append("\"");
        push_opacity(&mut s, "fill-opacity", ink.alpha);
        s.append("/>\n");
        self.element(s.as_str());
    }

    /// Outlines a rectangle.
    pub fn stroke_rect(&mut self, f: Frame, ink: Ink, width: u32)
        requires
            old(self).wf(),
        ensures
            final(self).wf(),
            if ink.alpha == 0 || width == 0 {
                *final(self) == *old(self)
            } else {
                final(self).marked(
                    *old(self),
                    Mark::Element(stroke_spec(f, ink, width as int)),
                    Seq::empty(),
                )
            },
            final(self).clipped == old(self).clipped,
            final(self).clips == old(self).clips,
            final(self).gradients == old(self).gradients,
    {
        if ink.alpha == 0 || width == 0 {
            return;
        }
        let mut s = "<rect".to_owned();
        s.append(geometry_of(&f).as_str());
        s.append(" fill=\"none\" stroke=\"");
        s.append(hex(ink.color).as_str());
        s.append("\"");
        push_attr(&mut s, "stroke-width", width as i64);
        push_opacity(&mut s, "stroke-opacity", ink.alpha);
        s.append("/>\n");
        self.element(s.as_str());
    }

    /// Draws an open line. Fewer than two points draw nothing.
    pub fn polyline(&mut self, points: &Vec<(i32, i32)>, ink: Ink, width: u32)
        requires
            old(self).wf(),
        ensures
            final(self).wf(),
            if points@.len() < 2 || ink.alpha == 0 || width == 0 {
                *final(self) == *old(self)
            } else {
                final(self).marked(
                    *old(self),
                    Mark::Element(polyline_spec(points@, ink, width as int)),
                    Seq::empty(),
                )
            },
            final(self).clipped == old(self).clipped,
            final(self).clips == old(self).clips,
            final(self).gradients == old(self).gradients,
    {
        if points.len() < 2 || ink.alpha == 0 || width == 0 {
            return;
        }
        let list = list_points(points);
        let mut s = "<polyline fill=\"none\" stroke=\"".to_owned();
        s.append(hex(ink.color).as_str());
        s.append("\"");
        push_attr(&mut s, "stroke-width", width as i64);
        s.append(" stroke-linecap=\"round\" stroke-linejoin=\"round\"");
        push_opacity(&mut s, "stroke-opacity", ink.alpha);
        s.append(" points=\"");
        s.append(list.as_str());
        s.append("\"/>\n");
        self.element(s.as_str());
    }

    /// Fills one cell of a grid of them.
    pub fn fill_cell(&mut self, f: Frame, ink: Ink)
        requires
            old(self).wf(),
        ensures
            final(self).wf(),
            if ink.alpha == 0 || f.wide() <= 0 || f.high() <= 0 {
                *final(self) == *old(self)
            } else {
                final(self).marked(*old(self), Mark::Element(cell_spec(f, ink)), Seq::empty())
            },
            final(self).clipped == old(self).clipped,
            final(self).clips == old(self).clips,
            final(self).gradients == old(self).gradients,
    {
        if ink.alpha == 0 || f.width() <= 0 || f.height() <= 0 {
            return;
        }
        let mut s = "<rect".to_owned();
        s.append(geometry_of(&f).as_str());
        s.append(" fill=\"");
        s.append(hex(ink.color).as_str());
        s.append("\"");
        push_opacity(&mut s, "fill-opacity", ink.alpha);
        s.append(" shape-rendering=\"crispEdges\"/>\n");
        self.element(s.as_str());
    }

    /// Fills a rectangle with a gradient from its top to its bottom. One stop is a flat fill; a
    /// gradient with a single stop is not defined the same way by every renderer.
    pub fn vertical_gradient(&mut self, f: Frame, stops: &Vec<(u8, Ink)>)
        requires
            old(self).wf(),
            old(self).gradients < u64::MAX,
        ensures
            final(self).wf(),
            if f.wide() <= 0 || f.high() <= 0 || stops@.len() == 0 || (stops@.len() == 1
                && stops@[0].1.alpha == 0) {
                *final(self) == *old(self)
            } else if stops@.len() == 1 {
                &&& final(self).marked(
                    *old(self),
                    Mark::Element(cell_spec(f, stops@[0].1)),
                    Seq::empty(),
                )
                &&& final(self).gradients == old(self).gradients
            } else {
                &&& final(self).marked(
                    *old(self),
                    Mark::Element(gradient_fill_spec(f, old(self).gradients as nat)),
                    gradient_spec(old(self).gradients as nat, stops@),
                )
                &&& final(self).gradients == old(self).gradients + 1
            },
            final(self).clipped == old(self).clipped,
            final(self).clips == old(self).clips,
    {
        if f.width() <= 0 || f.height() <= 0 || stops.len() == 0 {
            return;
        }
        if stops.len() == 1 {
            self.fill_cell(f, stops[0].1);
            return;
        }
        let id = self.gradients;
        let ghost before = *self;
        let list = list_stops(stops);
        let mut d = "<linearGradient id=\"grad".to_owned();
        push_dec(&mut d, id);
        d.append("\" x1=\"0\" y1=\"0\" x2=\"0\" y2=\"1\">");
        d.append(list.as_str());
        d.append("</linearGradient>\n");
        let mut s = "<rect".to_owned();
        s.append(geometry_of(&f).as_str());
        s.append(" fill=\"url(#grad");
        push_dec(&mut s, id);
        s.append(")\" shape-rendering=\"crispEdges\"/>\n");
        self.element(s.as_str());
        self.gradients = id + 1;
        self.defs.append(d.as_str());
        proof {
            assert(before.defs@ + Seq::<char>::empty() =~= before.defs@);
        }
    }

    /// Writes a line of text on its baseline.
    pub fn text(&mut self, x: i32, y: i64, align: Align, text: &str, size: u32, ink: Ink)
        requires
            old(self).wf(),
        ensures
            final(self).wf(),
            if text@.len() == 0 || ink.alpha == 0 {
                *final(self) == *old(self)
            } else {
                final(self).marked(
                    *old(self),
                    Mark::Element(text_spec(x as int, y as int, align, text@, size as int, ink)),
                    Seq::empty(),
                )
            },
            final(self).clipped == old(self).clipped,
            final(self).clips == old(self).clips,
            final(self).gradients == old(self).gradients,
    {
        if text.is_empty() || ink.alpha == 0 {
            return;
        }
        let mut s = "<text".to_owned();
        push_attr(&mut s, "x", x as i64);
        push_attr(&mut s, "y", y);
        s.append(" font-family=\"");
        s.append(FONT_STACK);
        s.append("\"");
        push_attr(&mut s, "font-size", size as i64);
        s.append(" fill=\"");
        s.append(hex(ink.color).as_str());
        s.append("\"");
        push_opacity(&mut s, "fill-opacity", ink.alpha);
        s.append(" text-anchor=\"");
        s.append(anchor_for(align));
        s.append("\">");
        s.append(escape(text).as_str());
        s.append("</text>\n");
        self.element(s.as_str());
    }

    /// Writes a line of text turned a quarter turn about a point, its baseline at `y` before.
    pub fn text_rotated(&mut self, x: i32, y: i64, center: i32, text: &str, size: u32, ink: Ink)
        requires
            old(self).wf(),
        ensures
            final(self).wf(),
            if text@.len() == 0 || ink.alpha == 0 {
                *final(self) == *old(self)
            } else {
                final(self).marked(
                    *old(self),
                    Mark::Element(
                        rotated_spec(
                            x as int,
                            y as int,
                            center as int,
                            text@,
                            size as int,
                            ink,
                        ),
                    ),
                    Seq::empty(),
                )
            },
            final(self).clipped == old(self).clipped,
            final(self).clips == old(self).clips,
            final(self).gradients == old(self).gradients,
    {
        if text.is_empty() || ink.alpha == 0 {
            return;
        }
        let mut s = "<text".to_owned();
        push_attr(&mut s, "x", x as i64);
        push_attr(&mut s, "y", y);
        s.append(" transform=\"rotate(-90 ");
        push_num(&mut s, x as i64);
        s.append(" ");
        push_num(&mut s, center as i64);
        s.append(")\" font-family=\"");
        s.append(FONT_STACK);
        s.append("\"");
        push_attr(&mut s, "font-size", size as i64);
        s.append(" fill=\"");
        s.append(hex(ink.color).as_str());
        s.append("\"");
        push_opacity(&mut s, "fill-opacity", ink.alpha);
        s.append(" text-anchor=\"middle\">");
        s.append(escape(text).as_str());
        s.append("</text>\n");
        self.element(s.as_str());
    }

    fn close_group(&mut self)
        requires
            old(self).wf(),
        ensures
            final(self).wf(),
            !final(self).clipped,
            if old(self).clipped {
                final(self).marked(*old(self), Mark::Close, Seq::empty())
            } else {
                *final(self) == *old(self)
            },
            final(self).clips == old(self).clips,
            final(self).gradients == old(self).gradients,
            final(self).defs == old(self).defs,
    {
        if self.clipped {
            let ghost before = self.marks@;
            self.body.append("</g>\n");
            self.clipped = false;
            proof {
                self.marks@ = before.push(Mark::Close);
                assert(self.marks@.drop_last() =~= before);
                assert(self.defs@ =~= self.defs@ + Seq::<char>::empty());
            }
        }
    }

    /// Confines what is drawn from here on to a rectangle, or lifts the restriction. A group
    /// that is open is closed first.
    pub fn clip(&mut self, f: Option<Frame>)
        requires
            old(self).wf(),
            old(self).clips < u64::MAX,
        ensures
            final(self).wf(),
            final(self).clipped == f is Some,
            final(self).gradients == old(self).gradients,
            final(self).size == old(self).size,
            final(self).size_mm == old(self).size_mm,
            ({
                let closed = if old(self).clipped {
                    old(self).marks@.push(Mark::Close)
                } else {
                    old(self).marks@
                };
                match f {
                    Some(f) => {
                        &&& final(self).marks@ == closed.push(Mark::Open(old(self).clips as nat))
                        &&& final(self).defs@ == old(self).defs@ + clip_spec(
                            old(self).clips as nat,
                            f,
                        )
                        &&& final(self).clips == old(self).clips + 1
                    },
                    None => {
                        &&& final(self).marks@ == closed
                        &&& final(self).defs@ == old(self).defs@
                        &&& final(self).clips == old(self).clips
                    },
                }
            }),
    {
        self.close_group();
        let f = match f {
            Some(f) => f,
            None => return,
        };
        let id = self.clips;
        let ghost before = self.marks@;
        let mut d = "<clipPath id=\"clip".to_owned();
        push_dec(&mut d, id);
        d.append("\"><rect");
        push_attr(&mut d, "x", f.left as i64);
        push_attr(&mut d, "y", f.top as i64);
        let w = f.width();
        let h = f.height();
        push_attr(
            &mut d,
            "width",
            if w < 0 {
                0
            } else {
                w
            },
        );
        push_attr(
            &mut d,
            "height",
            if h < 0 {
                0
            } else {
                h
            },
        );
        d.append("/></clipPath>\n");
        self.defs.append(d.as_str());
        let mut g = "<g clip-path=\"url(#clip".to_owned();
        push_dec(&mut g, id);
        g.append(")\">\n");
        self.body.append(g.as_str());
        self.clips = id + 1;
        self.clipped = true;
        proof {
            self.marks@ = before.push(Mark::Open(id as nat));
            assert(self.marks@.drop_last() =~= before);
        }
    }

    /// The finished document, with every group closed.
    pub fn finish(self) -> (r: String)
        requires
            self.wf(),
        ensures
            ({
                let marks = if self.clipped {
                    self.marks@.push(Mark::Close)
                } else {
                    self.marks@
                };
                &&& r@ == document(self.size, self.size_mm, self.defs@, written(marks))
                &&& well_nested(marks)
                &&& open_groups(marks) == 0
            }),
    {
        let mut canvas = self;
        canvas.close_group();
        let mut out = "<?xml version=\"1.0\" encoding=\"UTF-8\" standalone=\"no\"?>\n".to_owned();
        out.append("<svg xmlns=\"http://www.w3.org/2000/svg\" version=\"1.1\" width=\"");
        push_num(&mut out, canvas.size_mm.0 as i64);
        out.append("mm\" height=\"");
        push_num(&mut out, canvas.size_mm.1 as i64);
        out.append("mm\" viewBox=\"0 0 ");
        push_num(&mut out, canvas.size.0 as i64);
        out.append(" ");
        push_num(&mut out, canvas.size.1 as i64);
        out.append("\">\n");
        out.append("<!-- exported by rapid-analyzer -->\n");
        let mut d = String::new();
        if !canvas.defs.as_str().is_empty() {
            d.append("<defs>\n");
            d.append(canvas.defs.as_str());
            d.append("</defs>\n");
        }
        out.append(d.as_str());
        out.append(canvas.body.as_str());
        out.append("</svg>\n");
        out
    }
}

fn list_points(points: &Vec<(i32, i32)>) -> (r: String)
    ensures
        r@ == points_spec(points@, points@.len()),
{
    let mut out = String::new();
    let mut i: usize = 0;
    while i < points.len()
        invariant
            i <= points@.len(),
            out@ == points_spec(points@, i as nat),
        decreases points@.len() - i,
    {
        let (x, y) = points[i];
        if i > 0 {
            out.append(" ");
        } else {
            assert(out@ =~= out@ + Seq::<char>::empty());
        }
        push_num(&mut out, x as i64);
        out.append(",");
        push_num(&mut out, y as i64);
        i += 1;
    }
    out
}

fn list_stops(stops: &Vec<(u8, Ink)>) -> (r: String)
    ensures
        r@ == stops_spec(stops@, stops@.len()),
{
    let mut out = String::new();
    let mut i: usize = 0;
    while i < stops.len()
        invariant
            i <= stops@.len(),
            out@ == stops_spec(stops@, i as nat),
        decreases stops@.len() - i,
    {
        let (at, ink) = stops[i];
        out.append("<stop");
        push_attr(
            &mut out,
            "offset",
            if at > 100 {
                100
            } else {
                at as i64
            },
        );
        out.append(" stop-color=\"");
        out.append(hex(ink.color).as_str());
        out.append("\"");
        push_opacity(&mut out, "stop-opacity", ink.alpha);
        out.append("/>");
        i += 1;
    }
    out
}

} // verus!
