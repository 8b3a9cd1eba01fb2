//! What is written to a document reads back as what was drawn.
use vstd::prelude::*;

use crate::export::svg::{
    anchor_spec, attr, cell_spec, clip_spec, document, escaped, fill_spec, geometry,
    gradient_fill_spec, hex_spec, no_markup_is_left, num_spec, opacity_hundredths, opacity_spec,
    points_spec, polyline_spec, rotated_spec, stops_spec, stroke_spec, text_spec, Align, Frame, Ink,
    FONT_STACK,
};
use crate::colors::Rgb;
use crate::text::{dec, hex_byte_lower, pow10};
use crate::text_laws::{
    a_fixed_number_reads_back, a_hexadecimal_byte_reads_back, a_number_reads_back,
    a_separator_parts, a_signed_number_reads_back, is_numeric, lacks, nothing_parts,
    numbers_are_numeric, parts, read_hex, read_number,
};

verus! {

broadcast use vstd::seq_lib::group_seq_properties;

/// A number of hundredths reads back as that number of them.
pub proof fn a_coordinate_reads_back(n: int)
    ensures
        read_number(num_spec(n), 2) == n,
        is_numeric(num_spec(n)),
{
    assert(pow10(0) == 1 && pow10(1) == 10 && pow10(2) == 100) by {
        reveal_with_fuel(pow10, 3);
    }
    if n % 100 == 0 {
        a_signed_number_reads_back(n / 100, 2);
        numbers_are_numeric(n / 100, 0);
    } else if n % 10 == 0 {
        a_fixed_number_reads_back(n / 10, 1, 1);
        numbers_are_numeric(n / 10, 1);
    } else {
        a_fixed_number_reads_back(n, 2, 0);
        numbers_are_numeric(n, 2);
    }
}

proof fn lemma_points_lack(points: Seq<(i32, i32)>, n: nat)
    requires
        n <= points.len(),
    ensures
        lacks(points_spec(points, n), '"'),
    decreases n,
{
    if n > 0 {
        lemma_points_lack(points, (n - 1) as nat);
        lemma_blanks();
        let p = points[n - 1];
        a_coordinate_reads_back(p.0 as int);
        a_coordinate_reads_back(p.1 as int);
    }
}

proof fn lemma_blanks()
    ensures
        " "@ == seq![' '],
        ","@ == seq![','],
{
    reveal_strlit(" ");
    reveal_strlit(",");
    assert(" "@ =~= seq![' ']);
    assert(","@ =~= seq![',']);
}

proof fn lemma_points_parts(points: Seq<(i32, i32)>, n: nat, k: int)
    requires
        0 <= k < n <= points.len(),
    ensures
        ({
            let entries = parts(points_spec(points, n), ' ');
            &&& entries.len() == n
            &&& entries[k] == num_spec(points[k].0 as int) + ","@ + num_spec(points[k].1 as int)
        }),
    decreases n,
{
    lemma_blanks();
    let p = points[n - 1];
    let entry = num_spec(p.0 as int) + ","@ + num_spec(p.1 as int);
    a_coordinate_reads_back(p.0 as int);
    a_coordinate_reads_back(p.1 as int);
    let front = points_spec(points, (n - 1) as nat);
    if n == 1 {
        assert(points_spec(points, n) =~= entry);
        nothing_parts(entry, ' ');
    } else {
        if k < n - 1 {
            lemma_points_parts(points, (n - 1) as nat, k);
        } else {
            lemma_points_parts(points, (n - 1) as nat, 0);
        }
        assert(points_spec(points, n) =~= front.push(' ') + entry);
        a_separator_parts(front, ' ', entry);
    }
}

/// The points of a line read back: taken apart at the blanks there is an entry for each of them,
/// and the two sides of its comma are the point's place across and down.
pub proof fn a_line_reads_back(points: Seq<(i32, i32)>, k: int)
    requires
        0 <= k < points.len(),
    ensures
        ({
            let entries = parts(points_spec(points, points.len()), ' ');
            let pair = parts(entries[k], ',');
            &&& entries.len() == points.len()
            &&& pair.len() == 2
            &&& read_number(pair[0], 2) == points[k].0
            &&& read_number(pair[1], 2) == points[k].1
        }),
{
    lemma_blanks();
    lemma_points_parts(points, points.len(), k);
    let (x, y) = (num_spec(points[k].0 as int), num_spec(points[k].1 as int));
    a_coordinate_reads_back(points[k].0 as int);
    a_coordinate_reads_back(points[k].1 as int);
    assert(x + ","@ + y =~= x.push(',') + y);
    a_separator_parts(x, ',', y);
    nothing_parts(x, ',');
}

/// A colour reads back: a hash, and two hexadecimal digits for each of red, green and blue.
pub proof fn a_colour_reads_back(c: Rgb)
    ensures
        hex_spec(c).len() == 7,
        hex_spec(c)[0] == '#',
        read_hex(hex_spec(c).subrange(1, 3)) == c.r,
        read_hex(hex_spec(c).subrange(3, 5)) == c.g,
        read_hex(hex_spec(c).subrange(5, 7)) == c.b,
        lacks(hex_spec(c), '"'),
{
    reveal_strlit("#");
    a_hexadecimal_byte_reads_back(c.r as int);
    a_hexadecimal_byte_reads_back(c.g as int);
    a_hexadecimal_byte_reads_back(c.b as int);
    let s = hex_spec(c);
    assert(s.subrange(1, 3) =~= hex_byte_lower(c.r as int));
    assert(s.subrange(3, 5) =~= hex_byte_lower(c.g as int));
    assert(s.subrange(5, 7) =~= hex_byte_lower(c.b as int));
}

/// Whether a text ends with another.
pub open spec fn ends_with(s: Seq<char>, end: Seq<char>) -> bool {
    end.len() <= s.len() && s.skip(s.len() - end.len()) == end
}

/// Whether an element says something in an attribute: taken apart at its quotes, the name stands
/// in front of what it is.
#[verifier::opaque]
pub open spec fn says(element: Seq<char>, name: Seq<char>, value: Seq<char>) -> bool {
    exists|k: int|
        {
            &&& 0 <= k && 2 * k + 1 < parts(element, '"').len()
            &&& ends_with(#[trigger] parts(element, '"')[2 * k], " "@ + name + "="@)
            &&& parts(element, '"')[2 * k + 1] == value
        }
}

/// Whether an element gives a number of hundredths in an attribute.
pub open spec fn gives(element: Seq<char>, name: Seq<char>, n: int) -> bool {
    exists|value: Seq<char>| #[trigger] says(element, name, value) && read_number(value, 2) == n
}

/// An element's head with its first `n` attributes.
spec fn tagged(head: Seq<char>, attrs: Seq<(Seq<char>, Seq<char>)>, n: nat) -> Seq<char>
    decreases n,
{
    if n == 0 {
        head
    } else {
        tagged(head, attrs, (n - 1) as nat) + (" "@ + attrs[n - 1].0 + "="@) + seq!['"']
            + attrs[n - 1].1 + seq!['"']
    }
}

#[verifier::opaque]
spec fn plain(attrs: Seq<(Seq<char>, Seq<char>)>) -> bool {
    forall|k: int|
        0 <= k < attrs.len() ==> lacks((#[trigger] attrs[k]).0, '"') && lacks(attrs[k].1, '"')
}

proof fn lemma_parts_extend(s: Seq<char>, c: char, t: Seq<char>)
    requires
        lacks(t, c),
    ensures
        parts(s, c).len() > 0,
        parts(s + t, c) == parts(s, c).update(parts(s, c).len() - 1, parts(s, c).last() + t),
    decreases t.len(),
{
    if t.len() == 0 {
        assert(s + t =~= s);
        lemma_some_part(s, c);
        assert(parts(s, c).last() + t =~= parts(s, c).last());
        assert(parts(s, c) =~= parts(s, c).update(parts(s, c).len() - 1, parts(s, c).last()));
    } else {
        let front = t.drop_last();
        assert forall|i: int| 0 <= i < front.len() implies #[trigger] front[i] != c by {
            assert(front[i] == t[i]);
        }
        lemma_parts_extend(s, c, front);
        assert((s + t).drop_last() =~= s + front);
        assert((s + t).last() == t.last() && t.last() == t[t.len() - 1]);
        let (last, p) = (parts(s, c).len() - 1, parts(s, c));
        assert((p.last() + front).push(t.last()) =~= p.last() + t);
        assert(parts(s + t, c) =~= p.update(last, p.last() + t));
    }
}

proof fn lemma_some_part(s: Seq<char>, c: char)
    ensures
        parts(s, c).len() > 0,
    decreases s.len(),
{
    if s.len() > 0 {
        lemma_some_part(s.drop_last(), c);
    }
}

#[verifier::spinoff_prover]
#[verifier::rlimit(90)]
proof fn lemma_tagged(head: Seq<char>, attrs: Seq<(Seq<char>, Seq<char>)>, n: nat, k: int)
    requires
        lacks(head, '"'),
        plain(attrs),
        n <= attrs.len(),
        0 <= k < n || n == 0,
    ensures
        parts(tagged(head, attrs, n), '"').len() == 2 * n + 1,
        0 <= k < n ==> {
            let p = parts(tagged(head, attrs, n), '"');
            &&& p[2 * k + 1] == attrs[k].1
            &&& ends_with(p[2 * k], " "@ + attrs[k].0 + "="@)
        },
        n > 0 ==> parts(tagged(head, attrs, n), '"').last() == Seq::<char>::empty(),
    decreases n,
{
    reveal(plain);
    if n == 0 {
        nothing_parts(head, '"');
    } else {
        let before = tagged(head, attrs, (n - 1) as nat);
        let (name, value) = attrs[n - 1];
        reveal_strlit(" ");
        reveal_strlit("=");
        let key = " "@ + name + "="@;
        assert(lacks(key, '"'));
        if k < n - 1 {
            lemma_tagged(head, attrs, (n - 1) as nat, k);
        } else {
            lemma_tagged(head, attrs, (n - 1) as nat, 0);
        }
        let p = parts(before, '"');
        lemma_parts_extend(before, '"', key);
        let opened = before + key;
        a_separator_parts(opened, '"', value);
        let valued = opened.push('"') + value;
        a_separator_parts(valued, '"', Seq::empty());
        let all = tagged(head, attrs, n);
        assert(all =~= valued.push('"') + Seq::<char>::empty());
        let last = p.last() + key;
        assert(last.skip(last.len() - key.len()) =~= key);
        assert(parts(all, '"') =~= p.update(p.len() - 1, last).push(value).push(Seq::empty()));
    }
}

/// An element with attributes says what is in each of them.
proof fn lemma_says(
    element: Seq<char>,
    head: Seq<char>,
    attrs: Seq<(Seq<char>, Seq<char>)>,
    tail: Seq<char>,
    k: int,
)
    requires
        lacks(head, '"'),
        lacks(tail, '"'),
        plain(attrs),
        0 <= k < attrs.len(),
        element == tagged(head, attrs, attrs.len()) + tail,
    ensures
        says(element, attrs[k].0, attrs[k].1),
        parts(element, '"').last() == tail,
{
    lemma_tagged(head, attrs, attrs.len(), k);
    let all = tagged(head, attrs, attrs.len());
    lemma_parts_extend(all, '"', tail);
    let (p, q) = (parts(all, '"'), parts(element, '"'));
    assert(p.last() + tail =~= tail);
    assert(q[2 * k] == p[2 * k] && q[2 * k + 1] == p[2 * k + 1]);
    reveal(says);
}

proof fn lemma_quotes()
    ensures
        "\""@ == seq!['"'],
        "=\""@ == "="@ + seq!['"'],
        "="@ == seq!['='],
        " "@ == seq![' '],
{
    reveal_strlit("\"");
    reveal_strlit("=\"");
    reveal_strlit("=");
    reveal_strlit(" ");
    assert("\""@ =~= seq!['"']);
    assert("="@ =~= seq!['=']);
    assert(" "@ =~= seq![' ']);
    assert("=\""@ =~= "="@ + seq!['"']);
}

/// The attributes that place a rectangle.
spec fn placed(f: Frame) -> Seq<(Seq<char>, Seq<char>)> {
    seq![
        ("x"@, num_spec(f.left as int)),
        ("y"@, num_spec(f.top as int)),
        ("width"@, num_spec(f.wide())),
        ("height"@, num_spec(f.high())),
    ]
}

/// One more attribute with a number.
proof fn lemma_attr(
    head: Seq<char>,
    attrs: Seq<(Seq<char>, Seq<char>)>,
    n: nat,
    name: Seq<char>,
    v: int,
)
    requires
        n < attrs.len(),
        attrs[n as int] == (name, num_spec(v)),
    ensures
        tagged(head, attrs, n + 1) == tagged(head, attrs, n) + attr(name, v),
{
    lemma_quotes();
    assert(tagged(head, attrs, n + 1) =~= tagged(head, attrs, n) + attr(name, v));
}

/// One more attribute with a text.
proof fn lemma_named(
    head: Seq<char>,
    attrs: Seq<(Seq<char>, Seq<char>)>,
    n: nat,
    open: Seq<char>,
    name: Seq<char>,
    value: Seq<char>,
)
    requires
        n < attrs.len(),
        attrs[n as int] == (name, value),
        open == " "@ + name + "=\""@,
    ensures
        tagged(head, attrs, n + 1) == tagged(head, attrs, n) + open + value + "\""@,
{
    lemma_quotes();
    assert(tagged(head, attrs, n + 1) =~= tagged(head, attrs, n) + open + value + "\""@);
}

proof fn lemma_placed_plain(f: Frame)
    ensures
        plain(placed(f)),
{
    reveal(plain);
    reveal_strlit("x");
    reveal_strlit("y");
    reveal_strlit("width");
    reveal_strlit("height");
    a_coordinate_reads_back(f.left as int);
    a_coordinate_reads_back(f.top as int);
    a_coordinate_reads_back(f.wide());
    a_coordinate_reads_back(f.high());
}

proof fn lemma_four(head: Seq<char>, a: Seq<char>, b: Seq<char>, c: Seq<char>, d: Seq<char>)
    ensures
        head + a + b + c + d == head + (a + b + c + d),
{
    assert(head + a + b + c + d =~= head + (a + b + c + d));
}

#[verifier::spinoff_prover]
#[verifier::rlimit(90)]
proof fn lemma_placed(f: Frame, head: Seq<char>, more: Seq<(Seq<char>, Seq<char>)>)
    ensures
        tagged(head, placed(f) + more, 4) == head + geometry(f),
        plain(placed(f)),
{
    lemma_placed_plain(f);
    let all = placed(f) + more;
    assert(all[0] == placed(f)[0] && all[1] == placed(f)[1] && all[2] == placed(f)[2] && all[3]
        == placed(f)[3]);
    lemma_attr(head, all, 0, "x"@, f.left as int);
    lemma_attr(head, all, 1, "y"@, f.top as int);
    lemma_attr(head, all, 2, "width"@, f.wide());
    lemma_attr(head, all, 3, "height"@, f.high());
    lemma_four(
        head,
        attr("x"@, f.left as int),
        attr("y"@, f.top as int),
        attr("width"@, f.wide()),
        attr("height"@, f.high()),
    );
    assert(tagged(head, all, 0) == head);
}

/// Whether an element is placed at a rectangle: its left and top edges, its width and height.
pub open spec fn is_placed_at(element: Seq<char>, f: Frame) -> bool {
    &&& gives(element, "x"@, f.left as int)
    &&& gives(element, "y"@, f.top as int)
    &&& gives(element, "width"@, f.right - f.left)
    &&& gives(element, "height"@, f.bottom - f.top)
}

#[verifier::spinoff_prover]
#[verifier::rlimit(90)]
proof fn lemma_is_placed(
    element: Seq<char>,
    f: Frame,
    head: Seq<char>,
    more: Seq<(Seq<char>, Seq<char>)>,
    tail: Seq<char>,
)
    requires
        lacks(head, '"'),
        lacks(tail, '"'),
        plain(more),
        element == tagged(head, placed(f) + more, 4 + more.len()) + tail,
    ensures
        is_placed_at(element, f),
        forall|k: int|
            0 <= k < more.len() ==> says(element, (#[trigger] more[k]).0, more[k].1),
{
    let attrs = placed(f) + more;
    lemma_placed(f, head, more);
    lemma_plain_add(placed(f), more);
    assert(attrs[0] == placed(f)[0] && attrs[1] == placed(f)[1] && attrs[2] == placed(f)[2]
        && attrs[3] == placed(f)[3]);
    a_coordinate_reads_back(f.left as int);
    a_coordinate_reads_back(f.top as int);
    a_coordinate_reads_back(f.wide());
    a_coordinate_reads_back(f.high());
    lemma_says(element, head, attrs, tail, 0);
    lemma_says(element, head, attrs, tail, 1);
    lemma_says(element, head, attrs, tail, 2);
    lemma_says(element, head, attrs, tail, 3);
    assert(says(element, "x"@, num_spec(f.left as int)));
    assert(says(element, "y"@, num_spec(f.top as int)));
    assert(says(element, "width"@, num_spec(f.wide())));
    assert(says(element, "height"@, num_spec(f.high())));
    assert forall|k: int| 0 <= k < more.len() implies says(
        element,
        (#[trigger] more[k]).0,
        more[k].1,
    ) by {
        lemma_says(element, head, attrs, tail, 4 + k);
        assert(attrs[4 + k] == more[k]);
    }
}

/// The attribute of an opacity, where there is one.
spec fn faded(name: Seq<char>, alpha: u8) -> Seq<(Seq<char>, Seq<char>)> {
    if alpha == 255 {
        Seq::empty()
    } else {
        seq![(name, num_spec(opacity_hundredths(alpha)))]
    }
}

proof fn lemma_tagged_more(
    head: Seq<char>,
    attrs: Seq<(Seq<char>, Seq<char>)>,
    more: Seq<(Seq<char>, Seq<char>)>,
    n: nat,
)
    requires
        n <= attrs.len(),
    ensures
        tagged(head, attrs + more, n) == tagged(head, attrs, n),
    decreases n,
{
    if n > 0 {
        lemma_tagged_more(head, attrs, more, (n - 1) as nat);
        assert((attrs + more)[n - 1] == attrs[n - 1]);
    }
}

#[verifier::spinoff_prover]
#[verifier::rlimit(90)]
proof fn lemma_faded(
    head: Seq<char>,
    attrs: Seq<(Seq<char>, Seq<char>)>,
    name: Seq<char>,
    alpha: u8,
)
    requires
        lacks(name, '"'),
    ensures
        tagged(head, attrs + faded(name, alpha), attrs.len() + faded(name, alpha).len()) == tagged(
            head,
            attrs,
            attrs.len(),
        ) + opacity_spec(name, alpha),
        plain(faded(name, alpha)),
{
    reveal(plain);
    lemma_quotes();
    let more = faded(name, alpha);
    a_coordinate_reads_back(opacity_hundredths(alpha));
    lemma_tagged_more(head, attrs, more, attrs.len());
    let all = tagged(head, attrs, attrs.len());
    if alpha == 255 {
        assert(attrs + more =~= attrs);
        assert(all + opacity_spec(name, alpha) =~= all);
    } else {
        assert((attrs + more)[attrs.len() as int] == more[0]);
        assert(tagged(head, attrs + more, attrs.len() + 1) =~= all + opacity_spec(name, alpha));
    }
}

#[verifier::spinoff_prover]
#[verifier::rlimit(90)]
proof fn lemma_fill(head: Seq<char>, f: Frame, ink: Ink)
    ensures
        ({
            let more = seq![("fill"@, hex_spec(ink.color))] + faded("fill-opacity"@, ink.alpha);
            &&& plain(more)
            &&& tagged(head, placed(f) + more, 4 + more.len()) == head + geometry(f) + " fill=\""@
                + hex_spec(ink.color) + "\""@ + opacity_spec("fill-opacity"@, ink.alpha)
        }),
{
    lemma_quotes();
    reveal_strlit("fill");
    reveal_strlit(" fill=\"");
    reveal_strlit("fill-opacity");
    assert(" fill=\""@ =~= " "@ + "fill"@ + "="@ + seq!['"']);
    let one = seq![("fill"@, hex_spec(ink.color))];
    let fade = faded("fill-opacity"@, ink.alpha);
    a_colour_reads_back(ink.color);
    assert(plain(one)) by {
        reveal(plain);
    }
    lemma_placed(f, head, one);
    let five = placed(f) + one;
    assert(five[4] == one[0]);
    lemma_faded(head, five, "fill-opacity"@, ink.alpha);
    lemma_plain_add(one, fade);
    assert(placed(f) + (one + fade) =~= five + fade);
    let all = tagged(head, five, 5);
    assert(all =~= head + geometry(f) + " fill=\""@ + hex_spec(ink.color) + "\""@);
}

/// A filled rectangle is written where it is and in its colour, with how opaque it is where it is
/// not wholly so.
#[verifier::spinoff_prover]
#[verifier::rlimit(90)]
pub proof fn a_rectangle_reads_back(f: Frame, ink: Ink)
    ensures
        is_placed_at(fill_spec(f, ink), f),
        says(fill_spec(f, ink), "fill"@, hex_spec(ink.color)),
        ink.alpha < 255 ==> gives(
            fill_spec(f, ink),
            "fill-opacity"@,
            opacity_hundredths(ink.alpha),
        ),
{
    lemma_crisp();
    let head = "<rect"@;
    let more = seq![("fill"@, hex_spec(ink.color))] + faded("fill-opacity"@, ink.alpha);
    lemma_fill(head, f, ink);
    let element = fill_spec(f, ink);
    assert(element == tagged(head, placed(f) + more, 4 + more.len()) + "/>\n"@);
    lemma_is_placed(element, f, head, more, "/>\n"@);
    assert(more[0] == ("fill"@, hex_spec(ink.color)));
    if ink.alpha < 255 {
        let value = num_spec(opacity_hundredths(ink.alpha));
        a_coordinate_reads_back(opacity_hundredths(ink.alpha));
        assert(more[1] == ("fill-opacity"@, value));
        assert(says(element, "fill-opacity"@, value));
    }
}

/// What ends a cell of a grid.
proof fn lemma_crisp()
    ensures
        " shape-rendering=\"crispEdges\"/>\n"@ == " shape-rendering=\""@ + "crispEdges"@ + "\""@
            + "/>\n"@,
        " shape-rendering=\""@ == " "@ + "shape-rendering"@ + "=\""@,
        lacks("shape-rendering"@, '"'),
        lacks("crispEdges"@, '"'),
        lacks("/>\n"@, '"'),
        lacks("<rect"@, '"'),
{
    reveal_strlit(" shape-rendering=\"crispEdges\"/>\n");
    reveal_strlit(" shape-rendering=\"");
    reveal_strlit("shape-rendering");
    reveal_strlit("crispEdges");
    reveal_strlit("\"");
    reveal_strlit("=\"");
    reveal_strlit(" ");
    reveal_strlit("/>\n");
    reveal_strlit("<rect");
    assert(" shape-rendering=\"crispEdges\"/>\n"@ =~= " shape-rendering=\""@ + "crispEdges"@ + "\""@
        + "/>\n"@);
    assert(" shape-rendering=\""@ =~= " "@ + "shape-rendering"@ + "=\""@);
}

/// A cell of a grid is written where it is and in its colour.
#[verifier::spinoff_prover]
#[verifier::rlimit(90)]
pub proof fn a_cell_reads_back(f: Frame, ink: Ink)
    ensures
        is_placed_at(cell_spec(f, ink), f),
        says(cell_spec(f, ink), "fill"@, hex_spec(ink.color)),
{
    lemma_crisp();
    let head = "<rect"@;
    let more = seq![("fill"@, hex_spec(ink.color))] + faded("fill-opacity"@, ink.alpha);
    lemma_fill(head, f, ink);
    let crisp = seq![("shape-rendering"@, "crispEdges"@)];
    let attrs = placed(f) + more;
    let longer = more + crisp;
    lemma_tagged_more(head, attrs, crisp, attrs.len());
    assert(attrs + crisp =~= placed(f) + longer);
    assert((attrs + crisp)[attrs.len() as int] == crisp[0]);
    lemma_named(
        head,
        attrs + crisp,
        attrs.len(),
        " shape-rendering=\""@,
        "shape-rendering"@,
        "crispEdges"@,
    );
    assert(plain(crisp)) by {
        reveal(plain);
    }
    lemma_plain_add(more, crisp);
    let body = tagged(head, attrs, attrs.len());
    let open = " shape-rendering=\""@;
    assert(body + open + "crispEdges"@ + "\""@ + "/>\n"@ =~= body + (open + "crispEdges"@ + "\""@
        + "/>\n"@));
    lemma_is_placed(cell_spec(f, ink), f, head, longer, "/>\n"@);
    assert(longer[0].0 == "fill"@);
}

/// The outline of a rectangle is written where it is, in its colour and as wide as it is.
#[verifier::spinoff_prover]
#[verifier::rlimit(90)]
pub proof fn an_outline_reads_back(f: Frame, ink: Ink, width: int)
    ensures
        is_placed_at(stroke_spec(f, ink, width), f),
        says(stroke_spec(f, ink, width), "stroke"@, hex_spec(ink.color)),
        gives(stroke_spec(f, ink, width), "stroke-width"@, width),
{
    lemma_strokes();
    lemma_crisp();
    let head = "<rect"@;
    let two = seq![("fill"@, "none"@), ("stroke"@, hex_spec(ink.color)), (
        "stroke-width"@,
        num_spec(width),
    )];
    let fade = faded("stroke-opacity"@, ink.alpha);
    let attrs = placed(f) + two;
    assert(attrs[4] == two[0] && attrs[5] == two[1] && attrs[6] == two[2]);
    lemma_placed(f, head, two);
    lemma_named(head, attrs, 4, " fill=\""@, "fill"@, "none"@);
    lemma_named(head, attrs, 5, " stroke=\""@, "stroke"@, hex_spec(ink.color));
    lemma_attr(head, attrs, 6, "stroke-width"@, width);
    lemma_faded(head, attrs, "stroke-opacity"@, ink.alpha);
    a_colour_reads_back(ink.color);
    a_coordinate_reads_back(width);
    let more = two + fade;
    assert(plain(two)) by {
        reveal(plain);
    }
    lemma_plain_add(two, fade);
    assert(placed(f) + more =~= attrs + fade);
    let g = head + geometry(f);
    assert(g + " fill=\""@ + "none"@ + "\""@ + " stroke=\""@ =~= g
        + " fill=\"none\" stroke=\""@);
    lemma_is_placed(stroke_spec(f, ink, width), f, head, more, "/>\n"@);
    assert(more[1].0 == "stroke"@);
    assert(more[2] == ("stroke-width"@, num_spec(width)));
    assert(says(stroke_spec(f, ink, width), "stroke-width"@, num_spec(width)));
}

proof fn lemma_strokes()
    ensures
        " fill=\"none\" stroke=\""@ == " fill=\""@ + "none"@ + "\""@ + " stroke=\""@,
        " fill=\""@ == " "@ + "fill"@ + "=\""@,
        " stroke=\""@ == " "@ + "stroke"@ + "=\""@,
        lacks("fill"@, '"'),
        lacks("none"@, '"'),
        lacks("stroke"@, '"'),
        lacks("stroke-width"@, '"'),
        lacks("stroke-opacity"@, '"'),
{
    reveal_strlit(" fill=\"none\" stroke=\"");
    reveal_strlit(" fill=\"");
    reveal_strlit("fill");
    reveal_strlit("none");
    reveal_strlit("\"");
    reveal_strlit(" stroke=\"");
    reveal_strlit("stroke");
    reveal_strlit("stroke-width");
    reveal_strlit("stroke-opacity");
    reveal_strlit("=\"");
    reveal_strlit(" ");
    assert(" fill=\"none\" stroke=\""@ =~= " fill=\""@ + "none"@ + "\""@ + " stroke=\""@);
    assert(" fill=\""@ =~= " "@ + "fill"@ + "=\""@);
    assert(" stroke=\""@ =~= " "@ + "stroke"@ + "=\""@);
}

proof fn lemma_line_literals()
    ensures
        "<polyline fill=\"none\" stroke=\""@ == "<polyline"@ + (" fill=\""@ + "none"@ + "\""@
            + " stroke=\""@),
        " stroke-linecap=\"round\" stroke-linejoin=\"round\""@ == " stroke-linecap=\""@ + "round"@
            + "\""@ + (" stroke-linejoin=\""@ + "round"@ + "\""@),
        " stroke-linecap=\""@ == " "@ + "stroke-linecap"@ + "=\""@,
        " stroke-linejoin=\""@ == " "@ + "stroke-linejoin"@ + "=\""@,
        " points=\""@ == " "@ + "points"@ + "=\""@,
        "\"/>\n"@ == "\""@ + "/>\n"@,
        lacks("<polyline"@, '"'),
        lacks("stroke-linecap"@, '"'),
        lacks("stroke-linejoin"@, '"'),
        lacks("round"@, '"'),
        lacks("points"@, '"'),
{
    reveal_strlit("<polyline fill=\"none\" stroke=\"");
    reveal_strlit("<polyline");
    reveal_strlit(" fill=\"");
    reveal_strlit("none");
    reveal_strlit("\"");
    reveal_strlit(" stroke=\"");
    reveal_strlit(" stroke-linecap=\"round\" stroke-linejoin=\"round\"");
    reveal_strlit(" stroke-linecap=\"");
    reveal_strlit(" stroke-linejoin=\"");
    reveal_strlit("stroke-linecap");
    reveal_strlit("stroke-linejoin");
    reveal_strlit("round");
    reveal_strlit(" points=\"");
    reveal_strlit("points");
    reveal_strlit("=\"");
    reveal_strlit(" ");
    reveal_strlit("\"/>\n");
    reveal_strlit("/>\n");
    assert("<polyline fill=\"none\" stroke=\""@ =~= "<polyline"@ + (" fill=\""@ + "none"@ + "\""@
        + " stroke=\""@));
    assert(" stroke-linecap=\"round\" stroke-linejoin=\"round\""@ =~= " stroke-linecap=\""@
        + "round"@ + "\""@ + (" stroke-linejoin=\""@ + "round"@ + "\""@));
    assert(" stroke-linecap=\""@ =~= " "@ + "stroke-linecap"@ + "=\""@);
    assert(" stroke-linejoin=\""@ =~= " "@ + "stroke-linejoin"@ + "=\""@);
    assert(" points=\""@ =~= " "@ + "points"@ + "=\""@);
    assert("\"/>\n"@ =~= "\""@ + "/>\n"@);
}

/// The attributes of a line in front of its points.
spec fn drawn(color: Seq<char>, width: int) -> Seq<(Seq<char>, Seq<char>)> {
    seq![
        ("fill"@, "none"@),
        ("stroke"@, color),
        ("stroke-width"@, num_spec(width)),
        ("stroke-linecap"@, "round"@),
        ("stroke-linejoin"@, "round"@),
    ]
}

#[verifier::spinoff_prover]
#[verifier::rlimit(90)]
proof fn lemma_drawn(color: Seq<char>, width: int)
    requires
        lacks(color, '"'),
    ensures
        plain(drawn(color, width)),
        tagged("<polyline"@, drawn(color, width), 5) == "<polyline fill=\"none\" stroke=\""@ + color
            + "\""@ + attr("stroke-width"@, width)
            + " stroke-linecap=\"round\" stroke-linejoin=\"round\""@,
{
    lemma_strokes();
    lemma_line_literals();
    a_coordinate_reads_back(width);
    reveal(plain);
    let head = "<polyline"@;
    let first = drawn(color, width);
    lemma_named(head, first, 0, " fill=\""@, "fill"@, "none"@);
    lemma_named(head, first, 1, " stroke=\""@, "stroke"@, color);
    lemma_attr(head, first, 2, "stroke-width"@, width);
    lemma_named(head, first, 3, " stroke-linecap=\""@, "stroke-linecap"@, "round"@);
    lemma_named(head, first, 4, " stroke-linejoin=\""@, "stroke-linejoin"@, "round"@);
    assert(tagged(head, first, 0) == head);
    lemma_four(head, " fill=\""@, "none"@, "\""@, " stroke=\""@);
    let wide = tagged(head, first, 3);
    let (cap, join) = (" stroke-linecap=\""@, " stroke-linejoin=\""@);
    assert(wide + cap + "round"@ + "\""@ + join + "round"@ + "\""@ =~= wide + (cap + "round"@
        + "\""@ + (join + "round"@ + "\""@)));
}

proof fn lemma_plain_add(a: Seq<(Seq<char>, Seq<char>)>, b: Seq<(Seq<char>, Seq<char>)>)
    requires
        plain(a),
        plain(b),
    ensures
        plain(a + b),
{
    reveal(plain);
    assert forall|k: int| 0 <= k < (a + b).len() implies lacks((#[trigger] (a + b)[k]).0, '"')
        && lacks((a + b)[k].1, '"') by {
        if k < a.len() {
            assert((a + b)[k] == a[k]);
        } else {
            assert((a + b)[k] == b[k - a.len()]);
        }
    }
}

/// A line is written in its colour, as wide as it is, and through its points: what its element
/// says of them is what [`a_line_reads_back`] reads.
#[verifier::spinoff_prover]
#[verifier::rlimit(90)]
pub proof fn a_polyline_reads_back(points: Seq<(i32, i32)>, ink: Ink, width: int)
    ensures
        says(
            polyline_spec(points, ink, width),
            "points"@,
            points_spec(points, points.len()),
        ),
        says(polyline_spec(points, ink, width), "stroke"@, hex_spec(ink.color)),
        gives(polyline_spec(points, ink, width), "stroke-width"@, width),
{
    lemma_strokes();
    lemma_crisp();
    lemma_line_literals();
    let head = "<polyline"@;
    let through = points_spec(points, points.len());
    let color = hex_spec(ink.color);
    let first = drawn(color, width);
    let fade = faded("stroke-opacity"@, ink.alpha);
    let last = seq![("points"@, through)];
    lemma_points_lack(points, points.len());
    a_colour_reads_back(ink.color);
    a_coordinate_reads_back(width);
    lemma_drawn(color, width);
    lemma_faded(head, first, "stroke-opacity"@, ink.alpha);
    let some = first + fade;
    lemma_tagged_more(head, some, last, some.len());
    let all = some + last;
    assert(all[some.len() as int] == last[0]);
    lemma_named(head, all, some.len(), " points=\""@, "points"@, through);
    assert(plain(last)) by {
        reveal(plain);
    }
    lemma_plain_add(first, fade);
    lemma_plain_add(some, last);
    let element = polyline_spec(points, ink, width);
    let fading = tagged(head, some, some.len());
    assert(fading + " points=\""@ + through + "\""@ + "/>\n"@ =~= fading + " points=\""@ + through
        + ("\""@ + "/>\n"@));
    assert(element == tagged(head, all, all.len()) + "/>\n"@);
    lemma_says(element, head, all, "/>\n"@, 1);
    lemma_says(element, head, all, "/>\n"@, 2);
    lemma_says(element, head, all, "/>\n"@, some.len() as int);
    assert(all[1] == first[1] && all[2] == first[2]);
    assert(says(element, "stroke-width"@, num_spec(width)));
}

proof fn lemma_text_literals()
    ensures
        " font-family=\""@ == " "@ + "font-family"@ + "=\""@,
        " fill=\""@ == " "@ + "fill"@ + "=\""@,
        " text-anchor=\""@ == " "@ + "text-anchor"@ + "=\""@,
        "\">"@ == "\""@ + ">"@,
        lacks("<text"@, '"'),
        lacks("x"@, '"'),
        lacks("y"@, '"'),
        lacks("font-family"@, '"'),
        lacks("font-size"@, '"'),
        lacks("fill"@, '"'),
        lacks("fill-opacity"@, '"'),
        lacks("text-anchor"@, '"'),
        lacks(">"@, '"'),
        lacks("</text>\n"@, '"'),
{
    reveal_strlit(" font-family=\"");
    reveal_strlit("font-family");
    reveal_strlit(" fill=\"");
    reveal_strlit("fill");
    reveal_strlit(" text-anchor=\"");
    reveal_strlit("text-anchor");
    reveal_strlit("=\"");
    reveal_strlit("\"");
    reveal_strlit("\">");
    reveal_strlit(">");
    reveal_strlit(" ");
    reveal_strlit("<text");
    reveal_strlit("x");
    reveal_strlit("y");
    reveal_strlit("font-size");
    reveal_strlit("fill-opacity");
    reveal_strlit("</text>\n");
    assert(" font-family=\""@ =~= " "@ + "font-family"@ + "=\""@);
    assert(" fill=\""@ =~= " "@ + "fill"@ + "=\""@);
    assert(" text-anchor=\""@ =~= " "@ + "text-anchor"@ + "=\""@);
    assert("\">"@ =~= "\""@ + ">"@);
}

proof fn lemma_words_lack(align: Align)
    ensures
        lacks(FONT_STACK@, '"'),
        lacks(anchor_spec(align), '"'),
{
    reveal_strlit("Ubuntu, 'DejaVu Sans', Helvetica, Arial, sans-serif");
    reveal_strlit("start");
    reveal_strlit("middle");
    reveal_strlit("end");
}

/// The attributes of a text in front of its opacity.
spec fn lettered(x: int, y: int, size: int, color: Seq<char>) -> Seq<(Seq<char>, Seq<char>)> {
    seq![
        ("x"@, num_spec(x)),
        ("y"@, num_spec(y)),
        ("font-family"@, FONT_STACK@),
        ("font-size"@, num_spec(size)),
        ("fill"@, color),
    ]
}

/// How the names of a text's attributes are written.
proof fn lemma_text_names()
    ensures
        " font-family=\""@ == " "@ + "font-family"@ + "=\""@,
        " fill=\""@ == " "@ + "fill"@ + "=\""@,
        " transform=\""@ == " "@ + "transform"@ + "=\""@,
{
    reveal_strlit(" font-family=\"");
    reveal_strlit("font-family");
    reveal_strlit(" fill=\"");
    reveal_strlit("fill");
    reveal_strlit(" transform=\"");
    reveal_strlit("transform");
    reveal_strlit("=\"");
    reveal_strlit(" ");
    assert(" font-family=\""@ =~= " "@ + "font-family"@ + "=\""@);
    assert(" fill=\""@ =~= " "@ + "fill"@ + "=\""@);
    assert(" transform=\""@ =~= " "@ + "transform"@ + "=\""@);
}

proof fn lemma_pair_plain(name: Seq<char>, value: Seq<char>)
    requires
        lacks(name, '"'),
        lacks(value, '"'),
    ensures
        plain(seq![(name, value)]),
{
    reveal(plain);
}

proof fn lemma_number_plain(name: Seq<char>, n: int)
    requires
        lacks(name, '"'),
    ensures
        plain(seq![(name, num_spec(n))]),
{
    a_coordinate_reads_back(n);
    lemma_pair_plain(name, num_spec(n));
}

#[verifier::spinoff_prover]
proof fn lemma_lettered_plain(x: int, y: int, size: int, color: Seq<char>)
    requires
        lacks(color, '"'),
    ensures
        plain(lettered(x, y, size, color)),
{
    lemma_text_literals();
    lemma_words_lack(Align::Min);
    lemma_number_plain("x"@, x);
    lemma_number_plain("y"@, y);
    lemma_pair_plain("font-family"@, FONT_STACK@);
    lemma_number_plain("font-size"@, size);
    lemma_pair_plain("fill"@, color);
    let a = seq![("x"@, num_spec(x))];
    let b = seq![("y"@, num_spec(y))];
    let c = seq![("font-family"@, FONT_STACK@)];
    let d = seq![("font-size"@, num_spec(size))];
    let e = seq![("fill"@, color)];
    lemma_plain_add(a, b);
    lemma_plain_add(a + b, c);
    lemma_plain_add(a + b + c, d);
    lemma_plain_add(a + b + c + d, e);
    assert(lettered(x, y, size, color) =~= a + b + c + d + e);
}

#[verifier::spinoff_prover]
#[verifier::rlimit(90)]
proof fn lemma_lettered_text(x: int, y: int, size: int, color: Seq<char>)
    ensures
        tagged("<text"@, lettered(x, y, size, color), 5) == "<text"@ + attr("x"@, x) + attr(
            "y"@,
            y,
        ) + " font-family=\""@ + FONT_STACK@ + "\""@ + attr("font-size"@, size) + " fill=\""@
            + color + "\""@,
{
    lemma_text_names();
    let head = "<text"@;
    let all = lettered(x, y, size, color);
    assert(tagged(head, all, 0) == head);
    lemma_attr(head, all, 0, "x"@, x);
    lemma_attr(head, all, 1, "y"@, y);
    lemma_named(head, all, 2, " font-family=\""@, "font-family"@, FONT_STACK@);
    lemma_attr(head, all, 3, "font-size"@, size);
    lemma_named(head, all, 4, " fill=\""@, "fill"@, color);
}

proof fn lemma_lettered(x: int, y: int, size: int, color: Seq<char>)
    requires
        lacks(color, '"'),
    ensures
        plain(lettered(x, y, size, color)),
        tagged("<text"@, lettered(x, y, size, color), 5) == "<text"@ + attr("x"@, x) + attr(
            "y"@,
            y,
        ) + " font-family=\""@ + FONT_STACK@ + "\""@ + attr("font-size"@, size) + " fill=\""@
            + color + "\""@,
{
    lemma_lettered_plain(x, y, size, color);
    lemma_lettered_text(x, y, size, color);
}

proof fn lemma_escaped_lacks(text: Seq<char>)
    ensures
        lacks(">"@ + escaped(text) + "</text>\n"@, '"'),
{
    lemma_text_literals();
    assert forall|i: int| 0 <= i < escaped(text).len() implies #[trigger] escaped(text)[i]
        != '"' by {
        no_markup_is_left(text, i);
    }
}

/// A line of text is written at its place, at its size, in its colour and anchored as it was
/// asked for; and between its tags stands the text, escaped.
#[verifier::spinoff_prover]
#[verifier::rlimit(90)]
pub proof fn a_text_reads_back(
    x: int,
    y: int,
    align: Align,
    text: Seq<char>,
    size: int,
    ink: Ink,
)
    ensures
        ({
            let element = text_spec(x, y, align, text, size, ink);
            &&& gives(element, "x"@, x)
            &&& gives(element, "y"@, y)
            &&& gives(element, "font-size"@, size)
            &&& says(element, "fill"@, hex_spec(ink.color))
            &&& says(
                element,
                "text-anchor"@,
                match align {
                    Align::Min => "start"@,
                    Align::Center => "middle"@,
                    Align::Max => "end"@,
                },
            )
            &&& parts(element, '"').last() == ">"@ + escaped(text) + "</text>\n"@
        }),
{
    lemma_text_literals();
    lemma_words_lack(align);
    lemma_escaped_lacks(text);
    let head = "<text"@;
    let color = hex_spec(ink.color);
    a_colour_reads_back(ink.color);
    lemma_lettered(x, y, size, color);
    let first = lettered(x, y, size, color);
    let fade = faded("fill-opacity"@, ink.alpha);
    lemma_faded(head, first, "fill-opacity"@, ink.alpha);
    let some = first + fade;
    let last = seq![("text-anchor"@, anchor_spec(align))];
    lemma_tagged_more(head, some, last, some.len());
    let all = some + last;
    assert(all[some.len() as int] == last[0]);
    lemma_named(head, all, some.len(), " text-anchor=\""@, "text-anchor"@, anchor_spec(align));
    assert(plain(last)) by {
        reveal(plain);
    }
    lemma_plain_add(first, fade);
    lemma_plain_add(some, last);
    let element = text_spec(x, y, align, text, size, ink);
    let tail = ">"@ + escaped(text) + "</text>\n"@;
    let fading = tagged(head, some, some.len());
    let anchored = fading + " text-anchor=\""@ + anchor_spec(align);
    assert(anchored + "\""@ + tail =~= anchored + ("\""@ + ">"@) + escaped(text) + "</text>\n"@);
    assert(element == tagged(head, all, all.len()) + tail);
    lemma_says(element, head, all, tail, 0);
    lemma_says(element, head, all, tail, 1);
    lemma_says(element, head, all, tail, 3);
    lemma_says(element, head, all, tail, 4);
    lemma_says(element, head, all, tail, some.len() as int);
    assert(all[0] == first[0] && all[1] == first[1] && all[3] == first[3] && all[4] == first[4]);
    a_coordinate_reads_back(x);
    a_coordinate_reads_back(y);
    a_coordinate_reads_back(size);
    assert(says(element, "x"@, num_spec(x)));
    assert(says(element, "y"@, num_spec(y)));
    assert(says(element, "font-size"@, num_spec(size)));
}

proof fn lemma_turned_literals()
    ensures
        " transform=\"rotate(-90 "@ == " transform=\""@ + "rotate(-90 "@,
        " transform=\""@ == " "@ + "transform"@ + "=\""@,
        ")\" font-family=\""@ == ")"@ + "\""@ + " font-family=\""@,
        " text-anchor=\"middle\">"@ == " text-anchor=\""@ + "middle"@ + "\""@ + ">"@,
        lacks("transform"@, '"'),
        lacks("rotate(-90 "@, '"'),
        lacks(")"@, '"'),
        lacks(" "@, '"'),
        lacks("middle"@, '"'),
{
    reveal_strlit(" transform=\"rotate(-90 ");
    reveal_strlit(" transform=\"");
    reveal_strlit("transform");
    reveal_strlit("rotate(-90 ");
    reveal_strlit(")\" font-family=\"");
    reveal_strlit(")");
    reveal_strlit("\"");
    reveal_strlit("=\"");
    reveal_strlit(" ");
    reveal_strlit(">");
    reveal_strlit(" font-family=\"");
    reveal_strlit(" text-anchor=\"middle\">");
    reveal_strlit(" text-anchor=\"");
    reveal_strlit("middle");
    assert(" transform=\"rotate(-90 "@ =~= " transform=\""@ + "rotate(-90 "@);
    assert(" transform=\""@ =~= " "@ + "transform"@ + "=\""@);
    assert(")\" font-family=\""@ =~= ")"@ + "\""@ + " font-family=\""@);
    assert(" text-anchor=\"middle\">"@ =~= " text-anchor=\""@ + "middle"@ + "\""@ + ">"@);
}

/// The attributes of a turned text in front of its opacity.
spec fn turned(
    x: int,
    y: int,
    turn: Seq<char>,
    size: int,
    color: Seq<char>,
) -> Seq<(Seq<char>, Seq<char>)> {
    seq![
        ("x"@, num_spec(x)),
        ("y"@, num_spec(y)),
        ("transform"@, turn),
        ("font-family"@, FONT_STACK@),
        ("font-size"@, num_spec(size)),
        ("fill"@, color),
    ]
}

#[verifier::spinoff_prover]
proof fn lemma_turned_plain(x: int, y: int, turn: Seq<char>, size: int, color: Seq<char>)
    requires
        lacks(color, '"'),
        lacks(turn, '"'),
    ensures
        plain(turned(x, y, turn, size, color)),
{
    lemma_text_literals();
    lemma_turned_literals();
    lemma_words_lack(Align::Min);
    lemma_number_plain("x"@, x);
    lemma_number_plain("y"@, y);
    lemma_pair_plain("transform"@, turn);
    lemma_pair_plain("font-family"@, FONT_STACK@);
    lemma_number_plain("font-size"@, size);
    lemma_pair_plain("fill"@, color);
    let a = seq![("x"@, num_spec(x))];
    let b = seq![("y"@, num_spec(y))];
    let c = seq![("transform"@, turn)];
    let d = seq![("font-family"@, FONT_STACK@)];
    let e = seq![("font-size"@, num_spec(size))];
    let f = seq![("fill"@, color)];
    lemma_plain_add(a, b);
    lemma_plain_add(a + b, c);
    lemma_plain_add(a + b + c, d);
    lemma_plain_add(a + b + c + d, e);
    lemma_plain_add(a + b + c + d + e, f);
    assert(turned(x, y, turn, size, color) =~= a + b + c + d + e + f);
}

#[verifier::spinoff_prover]
#[verifier::rlimit(90)]
proof fn lemma_turned(x: int, y: int, turn: Seq<char>, size: int, color: Seq<char>)
    requires
        lacks(color, '"'),
        lacks(turn, '"'),
    ensures
        plain(turned(x, y, turn, size, color)),
        tagged("<text"@, turned(x, y, turn, size, color), 6) == "<text"@ + attr("x"@, x) + attr(
            "y"@,
            y,
        ) + " transform=\""@ + turn + "\""@ + " font-family=\""@ + FONT_STACK@ + "\""@ + attr(
            "font-size"@,
            size,
        ) + " fill=\""@ + color + "\""@,
{
    lemma_turned_plain(x, y, turn, size, color);
    lemma_text_names();
    let head = "<text"@;
    let all = turned(x, y, turn, size, color);
    assert(tagged(head, all, 0) == head);
    lemma_attr(head, all, 0, "x"@, x);
    lemma_attr(head, all, 1, "y"@, y);
    lemma_named(head, all, 2, " transform=\""@, "transform"@, turn);
    lemma_named(head, all, 3, " font-family=\""@, "font-family"@, FONT_STACK@);
    lemma_attr(head, all, 4, "font-size"@, size);
    lemma_named(head, all, 5, " fill=\""@, "fill"@, color);
}

/// The rest of a turned text, behind its head.
#[verifier::spinoff_prover]
#[verifier::rlimit(90)]
proof fn lemma_turned_head(x: int, center: int, before: Seq<char>)
    ensures
        before + " transform=\"rotate(-90 "@ + num_spec(x) + " "@ + num_spec(center)
            + ")\" font-family=\""@ == before + " transform=\""@ + ("rotate(-90 "@ + num_spec(x)
            + " "@ + num_spec(center) + ")"@) + "\""@ + " font-family=\""@,
        lacks("rotate(-90 "@ + num_spec(x) + " "@ + num_spec(center) + ")"@, '"'),
{
    lemma_turned_literals();
    a_coordinate_reads_back(x);
    a_coordinate_reads_back(center);
    let (open, x, c) = (" transform=\""@, num_spec(x), num_spec(center));
    assert(before + (open + "rotate(-90 "@) + x + " "@ + c + (")"@ + "\""@ + " font-family=\""@)
        =~= before + open + ("rotate(-90 "@ + x + " "@ + c + ")"@) + "\""@ + " font-family=\""@);
}

/// A turned text is written at its place, at its size and in its colour, in the middle of its
/// anchor, and turned by a quarter anticlockwise about the point it is centred on; and between
/// its tags stands the text, escaped.
#[verifier::spinoff_prover]
#[verifier::rlimit(90)]
pub proof fn a_turned_text_reads_back(
    x: int,
    y: int,
    center: int,
    text: Seq<char>,
    size: int,
    ink: Ink,
)
    ensures
        ({
            let element = rotated_spec(x, y, center, text, size, ink);
            &&& gives(element, "x"@, x)
            &&& gives(element, "y"@, y)
            &&& says(
                element,
                "transform"@,
                "rotate(-90 "@ + num_spec(x) + " "@ + num_spec(center) + ")"@,
            )
            &&& gives(element, "font-size"@, size)
            &&& says(element, "fill"@, hex_spec(ink.color))
            &&& says(element, "text-anchor"@, "middle"@)
            &&& parts(element, '"').last() == ">"@ + escaped(text) + "</text>\n"@
        }),
{
    lemma_text_literals();
    lemma_turned_literals();
    lemma_escaped_lacks(text);
    let head = "<text"@;
    let color = hex_spec(ink.color);
    let turn = "rotate(-90 "@ + num_spec(x) + " "@ + num_spec(center) + ")"@;
    a_colour_reads_back(ink.color);
    lemma_turned_head(x, center, head + attr("x"@, x) + attr("y"@, y));
    lemma_turned(x, y, turn, size, color);
    let first = turned(x, y, turn, size, color);
    let fade = faded("fill-opacity"@, ink.alpha);
    lemma_faded(head, first, "fill-opacity"@, ink.alpha);
    let some = first + fade;
    let last = seq![("text-anchor"@, "middle"@)];
    lemma_tagged_more(head, some, last, some.len());
    let all = some + last;
    assert(all[some.len() as int] == last[0]);
    lemma_named(head, all, some.len(), " text-anchor=\""@, "text-anchor"@, "middle"@);
    assert(plain(last)) by {
        reveal(plain);
    }
    lemma_plain_add(first, fade);
    lemma_plain_add(some, last);
    let element = rotated_spec(x, y, center, text, size, ink);
    let tail = ">"@ + escaped(text) + "</text>\n"@;
    let fading = tagged(head, some, some.len());
    let open = " text-anchor=\""@;
    assert(fading + (open + "middle"@ + "\""@ + ">"@) + escaped(text) + "</text>\n"@ =~= fading
        + open + "middle"@ + "\""@ + tail);
    assert(element == tagged(head, all, all.len()) + tail);
    lemma_says(element, head, all, tail, 0);
    lemma_says(element, head, all, tail, 1);
    lemma_says(element, head, all, tail, 2);
    lemma_says(element, head, all, tail, 4);
    lemma_says(element, head, all, tail, 5);
    lemma_says(element, head, all, tail, some.len() as int);
    assert(all[0] == first[0] && all[1] == first[1] && all[2] == first[2] && all[4] == first[4]
        && all[5] == first[5]);
    a_coordinate_reads_back(x);
    a_coordinate_reads_back(y);
    a_coordinate_reads_back(size);
    assert(says(element, "x"@, num_spec(x)));
    assert(says(element, "y"@, num_spec(y)));
    assert(says(element, "font-size"@, num_spec(size)));
}

/// How far along a stop is, in hundredths: no further than the end.
pub open spec fn stop_at(stop: (u8, Ink)) -> int {
    if stop.0 > 100 {
        100
    } else {
        stop.0 as int
    }
}

/// A stop of a gradient without the bracket that ends it.
spec fn stop_text(stop: (u8, Ink)) -> Seq<char> {
    "<stop"@ + attr("offset"@, stop_at(stop)) + " stop-color=\""@ + hex_spec(stop.1.color) + "\""@
        + opacity_spec("stop-opacity"@, stop.1.alpha) + "/"@
}

#[verifier::spinoff_prover]
#[verifier::rlimit(90)]
proof fn lemma_stop_literals()
    ensures
        " stop-color=\""@ == " "@ + "stop-color"@ + "=\""@,
        "/>"@ == "/"@.push('>'),
        lacks("<stop"@, '"'),
        lacks("offset"@, '"'),
        lacks("stop-color"@, '"'),
        lacks("stop-opacity"@, '"'),
        lacks("/"@, '"'),
        lacks("<stop"@, '>'),
        lacks("offset"@, '>'),
        lacks(" stop-color=\""@, '>'),
        lacks("stop-opacity"@, '>'),
        lacks("/"@, '>'),
        lacks("\""@, '>'),
        lacks("=\""@, '>'),
        lacks(" "@, '>'),
{
    reveal_strlit(" stop-color=\"");
    reveal_strlit("stop-color");
    reveal_strlit("=\"");
    reveal_strlit("\"");
    reveal_strlit(" ");
    reveal_strlit("/>");
    reveal_strlit("/");
    reveal_strlit("<stop");
    reveal_strlit("offset");
    reveal_strlit("stop-opacity");
    assert(" stop-color=\""@ =~= " "@ + "stop-color"@ + "=\""@);
    assert("/>"@ =~= "/"@.push('>'));
}

proof fn lemma_number_lacks(n: int)
    ensures
        lacks(num_spec(n), '>'),
{
    a_coordinate_reads_back(n);
}

proof fn lemma_colour_lacks(c: Rgb)
    ensures
        lacks(hex_spec(c), '>'),
{
    reveal_strlit("#");
}

#[verifier::spinoff_prover]
#[verifier::rlimit(90)]
proof fn lemma_stop_lacks(stop: (u8, Ink))
    ensures
        lacks(stop_text(stop), '>'),
{
    lemma_stop_literals();
    lemma_number_lacks(stop_at(stop));
    lemma_number_lacks(opacity_hundredths(stop.1.alpha));
    lemma_colour_lacks(stop.1.color);
    let at = attr("offset"@, stop_at(stop));
    assert(lacks(at, '>'));
    let fade = opacity_spec("stop-opacity"@, stop.1.alpha);
    assert(lacks(fade, '>'));
    let one = "<stop"@ + at + " stop-color=\""@;
    assert(lacks(one, '>'));
    let two = one + hex_spec(stop.1.color) + "\""@;
    assert(lacks(two, '>'));
    assert(stop_text(stop) == two + fade + "/"@);
}

proof fn lemma_next_stop(stops: Seq<(u8, Ink)>, n: nat)
    requires
        0 < n <= stops.len(),
    ensures
        stops_spec(stops, n) == (stops_spec(stops, (n - 1) as nat) + stop_text(stops[n - 1])).push(
            '>',
        ) + Seq::<char>::empty(),
{
    lemma_stop_literals();
    let (at, ink) = stops[n - 1];
    let front = stops_spec(stops, (n - 1) as nat);
    let place = attr("offset"@, stop_at(stops[n - 1]));
    let color = hex_spec(ink.color);
    let fade = opacity_spec("stop-opacity"@, ink.alpha);
    lemma_bracketed(front, "<stop"@, place, " stop-color=\""@, color, "\""@, fade, "/"@);
}

proof fn lemma_bracketed(
    front: Seq<char>,
    a: Seq<char>,
    b: Seq<char>,
    c: Seq<char>,
    d: Seq<char>,
    e: Seq<char>,
    f: Seq<char>,
    g: Seq<char>,
)
    ensures
        front + a + b + c + d + e + f + g.push('>') == (front + (a + b + c + d + e + f + g)).push(
            '>',
        ) + Seq::<char>::empty(),
{
    assert(front + a + b + c + d + e + f + g.push('>') =~= (front + (a + b + c + d + e + f
        + g)).push('>') + Seq::<char>::empty());
}

proof fn lemma_stops(stops: Seq<(u8, Ink)>, n: nat, k: int)
    requires
        n <= stops.len(),
        0 <= k < n || n == 0,
    ensures
        ({
            let entries = parts(stops_spec(stops, n), '>');
            &&& entries.len() == n + 1
            &&& entries[n as int] == Seq::<char>::empty()
            &&& 0 <= k < n ==> entries[k] == stop_text(stops[k])
        }),
    decreases n,
{
    if n == 0 {
        nothing_parts(Seq::empty(), '>');
    } else {
        lemma_stop_literals();
        let front = stops_spec(stops, (n - 1) as nat);
        let stop = stop_text(stops[n - 1]);
        if k < n - 1 {
            lemma_stops(stops, (n - 1) as nat, k);
        } else {
            lemma_stops(stops, (n - 1) as nat, 0);
        }
        lemma_stop_lacks(stops[n - 1]);
        lemma_parts_extend(front, '>', stop);
        a_separator_parts(front + stop, '>', Seq::empty());
        lemma_next_stop(stops, n);
        let p = parts(front, '>');
        assert(p.last() + stop =~= stop);
    }
}

/// The stops of a gradient read back: taken apart at the brackets that end them there is an
/// element for each of them, in their order, which says how far along it is and its colour.
#[verifier::spinoff_prover]
#[verifier::rlimit(90)]
pub proof fn a_gradient_reads_back(stops: Seq<(u8, Ink)>, k: int)
    requires
        0 <= k < stops.len(),
    ensures
        ({
            let element = parts(stops_spec(stops, stops.len()), '>')[k];
            &&& parts(stops_spec(stops, stops.len()), '>').len() == stops.len() + 1
            &&& gives(element, "offset"@, stop_at(stops[k]))
            &&& says(element, "stop-color"@, hex_spec(stops[k].1.color))
        }),
{
    lemma_stops(stops, stops.len(), k);
    lemma_stop_literals();
    let (at, ink) = (stop_at(stops[k]), stops[k].1);
    let element = stop_text(stops[k]);
    let head = "<stop"@;
    let two = seq![("offset"@, num_spec(at)), ("stop-color"@, hex_spec(ink.color))];
    a_coordinate_reads_back(at);
    a_colour_reads_back(ink.color);
    lemma_attr(head, two, 0, "offset"@, at);
    lemma_named(head, two, 1, " stop-color=\""@, "stop-color"@, hex_spec(ink.color));
    lemma_faded(head, two, "stop-opacity"@, ink.alpha);
    assert(tagged(head, two, 0) == head);
    assert(plain(two)) by {
        reveal(plain);
    }
    let fade = faded("stop-opacity"@, ink.alpha);
    lemma_plain_add(two, fade);
    let all = two + fade;
    assert(element == tagged(head, all, all.len()) + "/"@);
    lemma_says(element, head, all, "/"@, 0);
    lemma_says(element, head, all, "/"@, 1);
    assert(all[0] == two[0] && all[1] == two[1]);
    assert(says(element, "offset"@, num_spec(at)));
}

/// Whether a text holds an element between two others.
pub open spec fn holds_element(
    text: Seq<char>,
    before: Seq<char>,
    element: Seq<char>,
    after: Seq<char>,
) -> bool {
    text == before + element + after
}

proof fn lemma_clip_literals()
    ensures
        "\"><rect"@ == "\">"@ + "<rect"@,
        "/></clipPath>\n"@ == "/>"@ + "</clipPath>\n"@,
        lacks("<rect"@, '"'),
        lacks("/>"@, '"'),
{
    reveal_strlit("/>");
    reveal_strlit("\"><rect");
    reveal_strlit("\">");
    reveal_strlit("<rect");
    reveal_strlit("/></clipPath>\n");
    reveal_strlit("</clipPath>\n");
    assert("\"><rect"@ =~= "\">"@ + "<rect"@);
    assert("/></clipPath>\n"@ =~= "/>"@ + "</clipPath>\n"@);
}

proof fn lemma_clip_parts(
    a: Seq<char>,
    q: Seq<char>,
    r: Seq<char>,
    x: Seq<char>,
    y: Seq<char>,
    w: Seq<char>,
    h: Seq<char>,
    e: Seq<char>,
    t: Seq<char>,
)
    ensures
        a + (q + r) + x + y + w + h + (e + t) == (a + q) + (r + (x + y + w + h) + e) + t,
{
    assert(a + (q + r) + x + y + w + h + (e + t) =~= (a + q) + (r + (x + y + w + h) + e) + t);
}

/// A clip is defined under its number, by a rectangle at its place.
#[verifier::spinoff_prover]
#[verifier::rlimit(90)]
pub proof fn a_clip_reads_back(id: nat, f: Frame)
    requires
        f.left <= f.right,
        f.top <= f.bottom,
    ensures
        exists|rect: Seq<char>|
            {
                &&& #[trigger] holds_element(
                    clip_spec(id, f),
                    "<clipPath id=\"clip"@ + dec(id) + "\">"@,
                    rect,
                    "</clipPath>\n"@,
                )
                &&& is_placed_at(rect, f)
            },
{
    lemma_clip_literals();
    let none = Seq::<(Seq<char>, Seq<char>)>::empty();
    let rect = "<rect"@ + geometry(f) + "/>"@;
    lemma_placed(f, "<rect"@, none);
    assert(plain(none)) by {
        reveal(plain);
    }
    lemma_is_placed(rect, f, "<rect"@, none, "/>"@);
    let before = "<clipPath id=\"clip"@ + dec(id) + "\">"@;
    lemma_clip_parts(
        "<clipPath id=\"clip"@ + dec(id),
        "\">"@,
        "<rect"@,
        attr("x"@, f.left as int),
        attr("y"@, f.top as int),
        attr("width"@, f.wide()),
        attr("height"@, f.high()),
        "/>"@,
        "</clipPath>\n"@,
    );
    assert(holds_element(clip_spec(id, f), before, rect, "</clipPath>\n"@));
}

/// A cell filled with a gradient is written where it is, and refers to the gradient's number.
#[verifier::spinoff_prover]
#[verifier::rlimit(90)]
pub proof fn a_shaded_cell_reads_back(f: Frame, id: nat)
    ensures
        is_placed_at(gradient_fill_spec(f, id), f),
        says(gradient_fill_spec(f, id), "fill"@, "url(#grad"@ + dec(id) + ")"@),
{
    lemma_crisp();
    lemma_strokes();
    lemma_quotes();
    a_number_reads_back(id);
    reveal_strlit(" fill=\"url(#grad");
    reveal_strlit(" fill=\"");
    reveal_strlit("url(#grad");
    reveal_strlit(")\" shape-rendering=\"crispEdges\"/>\n");
    reveal_strlit(" shape-rendering=\"crispEdges\"/>\n");
    reveal_strlit(")");
    assert(" fill=\"url(#grad"@ =~= " fill=\""@ + "url(#grad"@);
    assert(")\" shape-rendering=\"crispEdges\"/>\n"@ =~= ")"@ + "\""@
        + " shape-rendering=\"crispEdges\"/>\n"@);
    let head = "<rect"@;
    let link = "url(#grad"@ + dec(id) + ")"@;
    let more = seq![("fill"@, link), ("shape-rendering"@, "crispEdges"@)];
    assert(lacks(link, '"'));
    assert(plain(more)) by {
        reveal(plain);
    }
    let all = placed(f) + more;
    lemma_placed(f, head, more);
    assert(all[4] == more[0] && all[5] == more[1]);
    lemma_named(head, all, 4, " fill=\""@, "fill"@, link);
    lemma_named(head, all, 5, " shape-rendering=\""@, "shape-rendering"@, "crispEdges"@);
    let element = gradient_fill_spec(f, id);
    let start = head + geometry(f);
    let crisp = " shape-rendering=\""@ + "crispEdges"@ + "\""@;
    assert(element =~= start + " fill=\""@ + link + "\""@ + " shape-rendering=\""@ + "crispEdges"@
        + "\""@ + "/>\n"@);
    lemma_is_placed(element, f, head, more, "/>\n"@);
    assert(more[0] == ("fill"@, link));
}

proof fn lemma_document_literals()
    ensures
        "<svg xmlns=\"http://www.w3.org/2000/svg\" version=\"1.1\" width=\""@ == "<svg"@
            + " xmlns=\""@ + "http://www.w3.org/2000/svg"@ + "\""@ + " version=\""@ + "1.1"@
            + "\""@ + " width=\""@,
        "mm\" height=\""@ == "mm"@ + "\""@ + " height=\""@,
        "mm\" viewBox=\"0 0 "@ == "mm"@ + "\""@ + " viewBox=\""@ + "0 0 "@,
        "\">\n"@ == "\""@ + ">\n"@,
        " xmlns=\""@ == " "@ + "xmlns"@ + "=\""@,
        " version=\""@ == " "@ + "version"@ + "=\""@,
        " width=\""@ == " "@ + "width"@ + "=\""@,
        " height=\""@ == " "@ + "height"@ + "=\""@,
        " viewBox=\""@ == " "@ + "viewBox"@ + "=\""@,
        lacks("<svg"@, '"'),
        lacks("xmlns"@, '"'),
        lacks("http://www.w3.org/2000/svg"@, '"'),
        lacks("version"@, '"'),
        lacks("1.1"@, '"'),
        lacks("width"@, '"'),
        lacks("height"@, '"'),
        lacks("viewBox"@, '"'),
        lacks("mm"@, '"'),
        lacks("0 0 "@, '"'),
        lacks(" "@, '"'),
        lacks(">\n"@, '"'),
{
    reveal_strlit("<svg xmlns=\"http://www.w3.org/2000/svg\" version=\"1.1\" width=\"");
    reveal_strlit("<svg");
    reveal_strlit(" xmlns=\"");
    reveal_strlit("http://www.w3.org/2000/svg");
    reveal_strlit("\"");
    reveal_strlit(" version=\"");
    reveal_strlit("1.1");
    reveal_strlit(" width=\"");
    reveal_strlit("mm\" height=\"");
    reveal_strlit("mm");
    reveal_strlit(" height=\"");
    reveal_strlit("mm\" viewBox=\"0 0 ");
    reveal_strlit(" viewBox=\"");
    reveal_strlit("0 0 ");
    reveal_strlit("\">\n");
    reveal_strlit(">\n");
    reveal_strlit("xmlns");
    reveal_strlit("version");
    reveal_strlit("width");
    reveal_strlit("height");
    reveal_strlit("viewBox");
    reveal_strlit("=\"");
    reveal_strlit(" ");
    assert("<svg xmlns=\"http://www.w3.org/2000/svg\" version=\"1.1\" width=\""@ =~= "<svg"@
        + " xmlns=\""@ + "http://www.w3.org/2000/svg"@ + "\""@ + " version=\""@ + "1.1"@ + "\""@
        + " width=\""@);
    assert("mm\" height=\""@ =~= "mm"@ + "\""@ + " height=\""@);
    assert("mm\" viewBox=\"0 0 "@ =~= "mm"@ + "\""@ + " viewBox=\""@ + "0 0 "@);
    assert("\">\n"@ =~= "\""@ + ">\n"@);
    assert(" xmlns=\""@ =~= " "@ + "xmlns"@ + "=\""@);
    assert(" version=\""@ =~= " "@ + "version"@ + "=\""@);
    assert(" width=\""@ =~= " "@ + "width"@ + "=\""@);
    assert(" height=\""@ =~= " "@ + "height"@ + "=\""@);
    assert(" viewBox=\""@ =~= " "@ + "viewBox"@ + "=\""@);
}

/// The attributes of a document's root.
spec fn rooted(wide: Seq<char>, high: Seq<char>, view: Seq<char>) -> Seq<(Seq<char>, Seq<char>)> {
    seq![
        ("xmlns"@, "http://www.w3.org/2000/svg"@),
        ("version"@, "1.1"@),
        ("width"@, wide + "mm"@),
        ("height"@, high + "mm"@),
        ("viewBox"@, "0 0 "@ + view),
    ]
}

proof fn lemma_root_parts(two: Seq<char>, r: Seq<Seq<char>>)
    ensures
        two + (r[0] + r[1]) + r[2] + r[3] + (r[4] + r[1]) + r[2] + r[5] + (r[6] + (r[7] + r[8]
            + r[9])) + r[2] + r[10] == two + r[0] + (r[1] + r[2] + r[3]) + r[4] + (r[1] + r[2]
            + r[5] + r[6]) + r[7] + r[8] + r[9] + (r[2] + r[10]),
{
    assert(two + (r[0] + r[1]) + r[2] + r[3] + (r[4] + r[1]) + r[2] + r[5] + (r[6] + (r[7] + r[8]
        + r[9])) + r[2] + r[10] =~= two + r[0] + (r[1] + r[2] + r[3]) + r[4] + (r[1] + r[2] + r[5]
        + r[6]) + r[7] + r[8] + r[9] + (r[2] + r[10]));
}

#[verifier::spinoff_prover]
#[verifier::rlimit(90)]
proof fn lemma_rooted(wide: Seq<char>, high: Seq<char>, x: Seq<char>, y: Seq<char>)
    requires
        lacks(wide, '"'),
        lacks(high, '"'),
        lacks(x, '"'),
        lacks(y, '"'),
    ensures
        plain(rooted(wide, high, x + " "@ + y)),
        tagged("<svg"@, rooted(wide, high, x + " "@ + y), 5) + ">\n"@
            == "<svg xmlns=\"http://www.w3.org/2000/svg\" version=\"1.1\" width=\""@ + wide
            + "mm\" height=\""@ + high + "mm\" viewBox=\"0 0 "@ + x + " "@ + y + "\">\n"@,
{
    lemma_document_literals();
    let head = "<svg"@;
    let view = x + " "@ + y;
    let all = rooted(wide, high, view);
    assert(plain(all)) by {
        reveal(plain);
    }
    lemma_named(head, all, 0, " xmlns=\""@, "xmlns"@, "http://www.w3.org/2000/svg"@);
    lemma_named(head, all, 1, " version=\""@, "version"@, "1.1"@);
    lemma_named(head, all, 2, " width=\""@, "width"@, wide + "mm"@);
    lemma_named(head, all, 3, " height=\""@, "height"@, high + "mm"@);
    lemma_named(head, all, 4, " viewBox=\""@, "viewBox"@, "0 0 "@ + view);
    assert(tagged(head, all, 0) == head);
    let two = tagged(head, all, 2) + " width=\""@;
    lemma_root_parts(
        two,
        seq![wide, "mm"@, "\""@, " height=\""@, high, " viewBox=\""@, "0 0 "@, x, " "@, y, ">\n"@],
    );
}

/// The tag that a document's root opens with.
spec fn root_text(wide: Seq<char>, high: Seq<char>, x: Seq<char>, y: Seq<char>) -> Seq<char> {
    "<svg xmlns=\"http://www.w3.org/2000/svg\" version=\"1.1\" width=\""@ + wide
        + "mm\" height=\""@ + high + "mm\" viewBox=\"0 0 "@ + x + " "@ + y + "\">\n"@
}

#[verifier::spinoff_prover]
#[verifier::rlimit(90)]
proof fn lemma_root(wide: Seq<char>, high: Seq<char>, x: Seq<char>, y: Seq<char>)
    requires
        lacks(wide, '"'),
        lacks(high, '"'),
        lacks(x, '"'),
        lacks(y, '"'),
    ensures
        says(root_text(wide, high, x, y), "width"@, wide + "mm"@),
        says(root_text(wide, high, x, y), "height"@, high + "mm"@),
        says(root_text(wide, high, x, y), "viewBox"@, "0 0 "@ + (x + " "@ + y)),
{
    lemma_rooted(wide, high, x, y);
    lemma_root_lacks();
    let attrs = rooted(wide, high, x + " "@ + y);
    let root = root_text(wide, high, x, y);
    lemma_says(root, "<svg"@, attrs, ">\n"@, 2);
    lemma_says(root, "<svg"@, attrs, ">\n"@, 3);
    lemma_says(root, "<svg"@, attrs, ">\n"@, 4);
}

proof fn lemma_root_lacks()
    ensures
        lacks("<svg"@, '"'),
        lacks(">\n"@, '"'),
{
    reveal_strlit("<svg");
    reveal_strlit(">\n");
}

/// What follows the root's tag in a document.
spec fn document_rest(defs: Seq<char>, body: Seq<char>) -> Seq<char> {
    let definitions = if defs.len() == 0 {
        Seq::empty()
    } else {
        "<defs>\n"@ + defs + "</defs>\n"@
    };
    "<!-- exported by rapid-analyzer -->\n"@ + definitions + body + "</svg>\n"@
}

proof fn lemma_first_parts(
    front: Seq<char>,
    a: Seq<char>,
    b: Seq<char>,
    c: Seq<char>,
    d: Seq<char>,
    e: Seq<char>,
)
    ensures
        front + a + b + c + d + e == front + (a + b + c + d + e),
{
    assert(front + a + b + c + d + e =~= front + (a + b + c + d + e));
}

proof fn lemma_document(
    size: (u64, u64),
    size_mm: (u64, u64),
    defs: Seq<char>,
    body: Seq<char>,
)
    ensures
        document(size, size_mm, defs, body)
            == "<?xml version=\"1.0\" encoding=\"UTF-8\" standalone=\"no\"?>\n"@ + root_text(
            num_spec(size_mm.0 as int),
            num_spec(size_mm.1 as int),
            num_spec(size.0 as int),
            num_spec(size.1 as int),
        ) + document_rest(defs, body),
{
    let before = "<?xml version=\"1.0\" encoding=\"UTF-8\" standalone=\"no\"?>\n"@;
    let (wide, high) = (num_spec(size_mm.0 as int), num_spec(size_mm.1 as int));
    let (x, y) = (num_spec(size.0 as int), num_spec(size.1 as int));
    let open = "<svg xmlns=\"http://www.w3.org/2000/svg\" version=\"1.1\" width=\""@;
    let (down, seen, close) = ("mm\" height=\""@, "mm\" viewBox=\"0 0 "@, "\">\n"@);
    lemma_first_parts(before, open, wide, down, high, seen);
    lemma_first_parts(before, open + wide + down + high + seen, x, " "@, y, close);
    let definitions = if defs.len() == 0 {
        Seq::empty()
    } else {
        "<defs>\n"@ + defs + "</defs>\n"@
    };
    lemma_four(
        before + root_text(wide, high, x, y),
        "<!-- exported by rapid-analyzer -->\n"@,
        definitions,
        body,
        "</svg>\n"@,
    );
}

/// A document is as large in print as it was asked to be, in millimetres, and its figure as large
/// in units: both across and down.
#[verifier::spinoff_prover]
#[verifier::rlimit(90)]
pub proof fn a_document_has_its_size(
    size: (u64, u64),
    size_mm: (u64, u64),
    defs: Seq<char>,
    body: Seq<char>,
)
    ensures
        exists|root: Seq<char>, rest: Seq<char>|
            {
                &&& #[trigger] holds_element(
                    document(size, size_mm, defs, body),
                    "<?xml version=\"1.0\" encoding=\"UTF-8\" standalone=\"no\"?>\n"@,
                    root,
                    rest,
                )
                &&& says(root, "width"@, num_spec(size_mm.0 as int) + "mm"@)
                &&& says(root, "height"@, num_spec(size_mm.1 as int) + "mm"@)
                &&& says(
                    root,
                    "viewBox"@,
                    "0 0 "@ + (num_spec(size.0 as int) + " "@ + num_spec(size.1 as int)),
                )
            },
        read_number(num_spec(size_mm.0 as int), 2) == size_mm.0,
        read_number(num_spec(size_mm.1 as int), 2) == size_mm.1,
        read_number(num_spec(size.0 as int), 2) == size.0,
        read_number(num_spec(size.1 as int), 2) == size.1,
{
    a_coordinate_reads_back(size_mm.0 as int);
    a_coordinate_reads_back(size_mm.1 as int);
    a_coordinate_reads_back(size.0 as int);
    a_coordinate_reads_back(size.1 as int);
    let (wide, high) = (num_spec(size_mm.0 as int), num_spec(size_mm.1 as int));
    let (x, y) = (num_spec(size.0 as int), num_spec(size.1 as int));
    lemma_root(wide, high, x, y);
    let root = root_text(wide, high, x, y);
    let text = document(size, size_mm, defs, body);
    let before = "<?xml version=\"1.0\" encoding=\"UTF-8\" standalone=\"no\"?>\n"@;
    let rest = document_rest(defs, body);
    lemma_document(size, size_mm, defs, body);
    assert(holds_element(text, before, root, rest));
}

} // verus!
