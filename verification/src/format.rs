//! The document's textual file format: a parenthesized record with named
//! fields and a list of point records,
//!
//! ```text
//! (name:"...",image:"...",description:"...",points:[(x:1.000,y:2.000,description:"..."),...])
//! ```
//!
//! The renderer emits this compact canonical form. The parser also accepts
//! whitespace between tokens and trailing commas, as a pretty-printer would
//! produce them. Coordinates are written as decimals with exactly three
//! fraction digits and read back with one to three; string content is
//! escaped with a backslash for quotes and backslashes.

use vstd::prelude::*;

use crate::document::{LoadError, MapPoint, MapPointView, RegionData, RegionDataView};

verus! {

// ---------------------------------------------------------------- characters
pub open spec fn is_ws_char(c: char) -> bool {
    c == ' ' || c == '\n' || c == '\t' || c == '\r'
}

/// The value of a decimal digit character, or 10 for any other character.
pub open spec fn digit_val(c: char) -> int {
    if c == '0' {
        0
    } else if c == '1' {
        1
    } else if c == '2' {
        2
    } else if c == '3' {
        3
    } else if c == '4' {
        4
    } else if c == '5' {
        5
    } else if c == '6' {
        6
    } else if c == '7' {
        7
    } else if c == '8' {
        8
    } else if c == '9' {
        9
    } else {
        10
    }
}

pub open spec fn is_digit_char(c: char) -> bool {
    digit_val(c) < 10
}

/// The decimal digit character for a value between 0 and 9.
pub open spec fn digit_char(d: int) -> char {
    if d == 0 {
        '0'
    } else if d == 1 {
        '1'
    } else if d == 2 {
        '2'
    } else if d == 3 {
        '3'
    } else if d == 4 {
        '4'
    } else if d == 5 {
        '5'
    } else if d == 6 {
        '6'
    } else if d == 7 {
        '7'
    } else if d == 8 {
        '8'
    } else {
        '9'
    }
}

// ------------------------------------------------------------------ renderer
/// How a character appears inside a quoted string: quotes and backslashes
/// get a backslash escape, everything else stands for itself.
pub open spec fn escape_char(c: char) -> Seq<char> {
    if c == '"' || c == '\\' {
        seq!['\\', c]
    } else {
        seq![c]
    }
}

pub open spec fn spec_escape(s: Seq<char>) -> Seq<char>
    decreases s.len(),
{
    if s.len() == 0 {
        Seq::empty()
    } else {
        escape_char(s[0]) + spec_escape(s.drop_first())
    }
}

pub open spec fn spec_render_string(s: Seq<char>) -> Seq<char> {
    seq!['"'] + spec_escape(s) + seq!['"']
}

/// The decimal digits of a nonnegative number, most significant first.
pub open spec fn spec_digits(n: int) -> Seq<char>
    decreases n,
{
    if n <= 9 {
        seq![digit_char(n)]
    } else {
        spec_digits(n / 10) + seq![digit_char(n % 10)]
    }
}

/// Exactly three fraction digits for a value between 0 and 999.
pub open spec fn spec_render_frac3(f: int) -> Seq<char> {
    seq![digit_char(f / 100), digit_char((f / 10) % 10), digit_char(f % 10)]
}

/// A milli-unit coordinate as a decimal: optional sign, the whole units,
/// a point, and exactly three fraction digits.
pub open spec fn spec_render_milli(m: int) -> Seq<char> {
    let sign: Seq<char> = if m < 0 {
        seq!['-']
    } else {
        Seq::empty()
    };
    sign + spec_digits((vstd::math::abs(m) as int) / 1000) + seq!['.'] + spec_render_frac3(
        (vstd::math::abs(m) as int) % 1000,
    )
}

pub open spec fn lit_name() -> Seq<char> {
    seq!['n', 'a', 'm', 'e']
}

pub open spec fn lit_image() -> Seq<char> {
    seq!['i', 'm', 'a', 'g', 'e']
}

pub open spec fn lit_description() -> Seq<char> {
    seq!['d', 'e', 's', 'c', 'r', 'i', 'p', 't', 'i', 'o', 'n']
}

pub open spec fn lit_points() -> Seq<char> {
    seq!['p', 'o', 'i', 'n', 't', 's']
}

pub open spec fn spec_render_point(p: MapPointView) -> Seq<char> {
    seq!['(', 'x', ':'] + spec_render_milli(p.x_milli) + seq![',', 'y', ':'] + spec_render_milli(
        p.y_milli,
    ) + seq![','] + lit_description() + seq![':'] + spec_render_string(p.description) + seq![')']
}

pub open spec fn spec_render_points(pts: Seq<MapPointView>) -> Seq<char>
    decreases pts.len(),
{
    if pts.len() == 0 {
        Seq::empty()
    } else if pts.len() == 1 {
        spec_render_point(pts[0])
    } else {
        spec_render_point(pts[0]) + seq![','] + spec_render_points(pts.drop_first())
    }
}

pub open spec fn spec_render_doc(d: RegionDataView) -> Seq<char> {
    seq!['('] + lit_name() + seq![':'] + spec_render_string(d.name) + seq![','] + lit_image()
        + seq![':'] + spec_render_string(d.image) + seq![','] + lit_description() + seq![':']
        + spec_render_string(d.description) + seq![','] + lit_points() + seq![':', '[']
        + spec_render_points(d.points) + seq![']', ')']
}

// -------------------------------------------------------------- spec parser
/// The first position at or after `pos` that does not hold whitespace.
pub open spec fn ws_end(s: Seq<char>, pos: int) -> int
    decreases s.len() - pos,
{
    if pos < 0 || pos >= s.len() {
        pos
    } else if is_ws_char(s[pos]) {
        ws_end(s, pos + 1)
    } else {
        pos
    }
}

/// The position after `c` when it stands at `pos`.
pub open spec fn expect_char(s: Seq<char>, pos: int, c: char) -> Option<int> {
    if 0 <= pos < s.len() && s[pos] == c {
        Some(pos + 1)
    } else {
        None
    }
}

/// The position after `lit` when it stands at `pos`.
pub open spec fn expect_lit(s: Seq<char>, pos: int, lit: Seq<char>) -> Option<int>
    decreases lit.len(),
{
    if lit.len() == 0 {
        Some(pos)
    } else {
        match expect_char(s, pos, lit[0]) {
            Some(p) => expect_lit(s, p, lit.drop_first()),
            None => None,
        }
    }
}

/// What a backslash escape stands for.
pub open spec fn unescape_char(c: char) -> Option<char> {
    if c == '"' {
        Some('"')
    } else if c == '\\' {
        Some('\\')
    } else if c == 'n' {
        Some('\n')
    } else if c == 't' {
        Some('\t')
    } else if c == 'r' {
        Some('\r')
    } else {
        None
    }
}

/// The content of a quoted string from just after its opening quote to its
/// closing quote, and the position after that quote.
pub open spec fn parse_string_body(s: Seq<char>, pos: int) -> Option<(Seq<char>, int)>
    decreases s.len() - pos,
{
    if pos < 0 || pos >= s.len() {
        None
    } else if s[pos] == '"' {
        Some((Seq::empty(), pos + 1))
    } else if s[pos] == '\\' {
        if pos + 1 < s.len() {
            match unescape_char(s[pos + 1]) {
                Some(c) => match parse_string_body(s, pos + 2) {
                    Some((rest, end)) => Some((seq![c] + rest, end)),
                    None => None,
                },
                None => None,
            }
        } else {
            None
        }
    } else {
        match parse_string_body(s, pos + 1) {
            Some((rest, end)) => Some((seq![s[pos]] + rest, end)),
            None => None,
        }
    }
}

pub open spec fn parse_string(s: Seq<char>, pos: int) -> Option<(Seq<char>, int)> {
    match expect_char(s, pos, '"') {
        Some(p) => parse_string_body(s, p),
        None => None,
    }
}

/// The first position at or after `pos` that does not hold a decimal digit.
pub open spec fn digits_end(s: Seq<char>, pos: int) -> int
    decreases s.len() - pos,
{
    if pos < 0 || pos >= s.len() {
        pos
    } else if is_digit_char(s[pos]) {
        digits_end(s, pos + 1)
    } else {
        pos
    }
}

/// The value of the digit run from `pos` to `end`.
pub open spec fn digits_val(s: Seq<char>, pos: int, end: int) -> int
    decreases end - pos,
{
    if pos >= end {
        0
    } else {
        digits_val(s, pos, end - 1) * 10 + digit_val(s[end - 1])
    }
}

/// The milli-units contributed by an optional fraction part of one to three
/// digits, and the position after it.
pub open spec fn parse_fraction(s: Seq<char>, pos: int) -> Option<(int, int)> {
    if 0 <= pos < s.len() && s[pos] == '.' {
        let fe = digits_end(s, pos + 1);
        let k = fe - (pos + 1);
        if 1 <= k <= 3 {
            let v = digits_val(s, pos + 1, fe);
            let scaled = if k == 1 {
                v * 100
            } else if k == 2 {
                v * 10
            } else {
                v
            };
            Some((scaled, fe))
        } else {
            None
        }
    } else {
        Some((0, pos))
    }
}

/// A signed decimal coordinate in milli-units, and the position after it.
/// Fails when the value does not fit the stored coordinate range.
pub open spec fn parse_number(s: Seq<char>, pos: int) -> Option<(int, int)> {
    let neg = 0 <= pos < s.len() && s[pos] == '-';
    let p1 = if neg {
        pos + 1
    } else {
        pos
    };
    let de = digits_end(s, p1);
    if de == p1 {
        None
    } else {
        let ip = digits_val(s, p1, de);
        match parse_fraction(s, de) {
            None => None,
            Some((fr, end)) => {
                let mag = ip * 1000 + fr;
                let v = if neg {
                    -mag
                } else {
                    mag
                };
                if i64::MIN <= v <= i64::MAX {
                    Some((v, end))
                } else {
                    None
                }
            },
        }
    }
}

/// The position of a field's value, after its name, optional whitespace, a
/// colon and optional whitespace.
pub open spec fn parse_field_head(s: Seq<char>, pos: int, name: Seq<char>) -> Option<int> {
    match expect_lit(s, pos, name) {
        Some(p) => match expect_char(s, ws_end(s, p), ':') {
            Some(q) => Some(ws_end(s, q)),
            None => None,
        },
        None => None,
    }
}

/// The position after an optional comma followed by optional whitespace.
pub open spec fn skip_opt_comma(s: Seq<char>, pos: int) -> int {
    if 0 <= pos < s.len() && s[pos] == ',' {
        ws_end(s, pos + 1)
    } else {
        pos
    }
}

/// A point record `(x:...,y:...,description:"...")`, possibly with a
/// trailing comma before the closing parenthesis, and the position after it.
pub open spec fn parse_point(s: Seq<char>, pos: int) -> Option<(MapPointView, int)> {
    match expect_char(s, pos, '(') {
        None => None,
        Some(p0) => match parse_field_head(s, ws_end(s, p0), seq!['x']) {
            None => None,
            Some(p1) => match parse_number(s, p1) {
                None => None,
                Some((xv, p2)) => match expect_char(s, ws_end(s, p2), ',') {
                    None => None,
                    Some(p3) => match parse_field_head(s, ws_end(s, p3), seq!['y']) {
                        None => None,
                        Some(p4) => match parse_number(s, p4) {
                            None => None,
                            Some((yv, p5)) => match expect_char(s, ws_end(s, p5), ',') {
                                None => None,
                                Some(p6) => match parse_field_head(
                                    s,
                                    ws_end(s, p6),
                                    lit_description(),
                                ) {
                                    None => None,
                                    Some(p7) => match parse_string(s, p7) {
                                        None => None,
                                        Some((d, p8)) => match expect_char(
                                            s,
                                            skip_opt_comma(s, ws_end(s, p8)),
                                            ')',
                                        ) {
                                            None => None,
                                            Some(end) => Some(
                                                (
                                                    MapPointView {
                                                        x_milli: xv,
                                                        y_milli: yv,
                                                        description: d,
                                                    },
                                                    end,
                                                ),
                                            ),
                                        },
                                    },
                                },
                            },
                        },
                    },
                },
            },
        },
    }
}

/// The point records up to and including the closing bracket, starting at
/// the first non-whitespace position inside the list, and the position after
/// the bracket.
pub open spec fn parse_points(s: Seq<char>, pos: int) -> Option<(Seq<MapPointView>, int)>
    decreases s.len() - pos,
{
    if pos < 0 || pos > s.len() {
        None
    } else if pos < s.len() && s[pos] == ']' {
        Some((Seq::empty(), pos + 1))
    } else {
        match parse_point(s, pos) {
            None => None,
            Some((p, end)) => {
                if pos < end <= s.len() {
                    let q = ws_end(s, end);
                    if 0 <= q < s.len() && s[q] == ',' {
                        let q2 = ws_end(s, q + 1);
                        if pos < q2 <= s.len() {
                            match parse_points(s, q2) {
                                Some((rest, e)) => Some((seq![p] + rest, e)),
                                None => None,
                            }
                        } else {
                            None
                        }
                    } else if 0 <= q < s.len() && s[q] == ']' {
                        Some((seq![p], q + 1))
                    } else {
                        None
                    }
                } else {
                    None
                }
            },
        }
    }
}

/// A whole document. `None` when the text does not match the schema.
pub open spec fn parse_doc(s: Seq<char>) -> Option<RegionDataView> {
    match expect_char(s, ws_end(s, 0), '(') {
        None => None,
        Some(p0) => match parse_field_head(s, ws_end(s, p0), lit_name()) {
            None => None,
            Some(p1) => match parse_string(s, p1) {
                None => None,
                Some((nm, p2)) => match expect_char(s, ws_end(s, p2), ',') {
                    None => None,
                    Some(p3) => match parse_field_head(s, ws_end(s, p3), lit_image()) {
                        None => None,
                        Some(p4) => match parse_string(s, p4) {
                            None => None,
                            Some((im, p5)) => match expect_char(s, ws_end(s, p5), ',') {
                                None => None,
                                Some(p6) => match parse_field_head(
                                    s,
                                    ws_end(s, p6),
                                    lit_description(),
                                ) {
                                    None => None,
                                    Some(p7) => match parse_string(s, p7) {
                                        None => None,
                                        Some((ds, p8)) => match expect_char(s, ws_end(s, p8), ',') {
                                            None => None,
                                            Some(p9) => match parse_field_head(
                                                s,
                                                ws_end(s, p9),
                                                lit_points(),
                                            ) {
                                                None => None,
                                                Some(p10) => match expect_char(s, p10, '[') {
                                                    None => None,
                                                    Some(p11) => match parse_points(
                                                        s,
                                                        ws_end(s, p11),
                                                    ) {
                                                        None => None,
                                                        Some((pts, p12)) => match expect_char(
                                                            s,
                                                            skip_opt_comma(s, ws_end(s, p12)),
                                                            ')',
                                                        ) {
                                                            None => None,
                                                            Some(p13) => if ws_end(s, p13)
                                                                == s.len() {
                                                                Some(
                                                                    RegionDataView {
                                                                        name: nm,
                                                                        image: im,
                                                                        description: ds,
                                                                        points: pts,
                                                                    },
                                                                )
                                                            } else {
                                                                None
                                                            },
                                                        },
                                                    },
                                                },
                                            },
                                        },
                                    },
                                },
                            },
                        },
                    },
                },
            },
        },
    }
}

// ------------------------------------------------------- trusted conversion
/// Relies on `str::chars` and `Iterator::collect`: the characters of the
/// string, in order.
#[verifier::external_body]
fn str_to_chars(s: &str) -> (v: Vec<char>)
    ensures
        v@ == s@,
{
    s.chars().collect()
}

/// Relies on `Iterator::collect` for `String`: a string holding exactly the
/// given characters, in order.
#[verifier::external_body]
fn chars_to_string(v: &Vec<char>) -> (s: String)
    ensures
        s@ == v@,
{
    v.iter().collect()
}

// ------------------------------------------------------------ exec renderer
/// `spec_escape` distributes over concatenation.
proof fn lemma_escape_concat(a: Seq<char>, b: Seq<char>)
    ensures
        spec_escape(a + b) == spec_escape(a) + spec_escape(b),
    decreases a.len(),
{
    if a.len() == 0 {
        assert(a + b =~= b);
        assert(spec_escape(a) + spec_escape(b) =~= spec_escape(b));
    } else {
        assert((a + b).drop_first() =~= a.drop_first() + b);
        assert((a + b).len() > 0);
        assert((a + b)[0] == a[0]);
        lemma_escape_concat(a.drop_first(), b);
        assert(escape_char(a[0]) + (spec_escape(a.drop_first()) + spec_escape(b)) =~= (escape_char(
            a[0],
        ) + spec_escape(a.drop_first())) + spec_escape(b));
    }
}

fn digit_char_exec(d: u64) -> (c: char)
    requires
        d <= 9,
    ensures
        c == digit_char(d as int),
{
    if d == 0 {
        '0'
    } else if d == 1 {
        '1'
    } else if d == 2 {
        '2'
    } else if d == 3 {
        '3'
    } else if d == 4 {
        '4'
    } else if d == 5 {
        '5'
    } else if d == 6 {
        '6'
    } else if d == 7 {
        '7'
    } else if d == 8 {
        '8'
    } else {
        '9'
    }
}

/// Appends the characters of `lit` to `out`.
fn push_lit(out: &mut Vec<char>, lit: &str)
    ensures
        final(out)@ == old(out)@ + lit@,
{
    let ghost out0 = old(out)@;
    let n = lit.unicode_len();
    let mut i: usize = 0;
    while i < n
        invariant
            n == lit@.len(),
            i <= n,
            out@ == out0 + lit@.take(i as int),
        decreases n - i,
    {
        let c = lit.get_char(i);
        out.push(c);
        proof {
            assert(lit@.take(i + 1 as int) =~= lit@.take(i as int).push(lit@[i as int]));
        }
        i = i + 1;
    }
    proof {
        assert(lit@.take(n as int) =~= lit@);
    }
}

/// Appends the escaped form of the characters of `v` to `out`.
fn push_escaped(out: &mut Vec<char>, v: &Vec<char>)
    ensures
        final(out)@ == old(out)@ + spec_escape(v@),
{
    let ghost out0 = old(out)@;
    let n = v.len();
    let mut i: usize = 0;
    while i < n
        invariant
            n == v@.len(),
            i <= n,
            out@ == out0 + spec_escape(v@.take(i as int)),
        decreases n - i,
    {
        let c = v[i];
        if c == '"' || c == '\\' {
            out.push('\\');
            out.push(c);
        } else {
            out.push(c);
        }
        proof {
            assert(v@.take(i + 1 as int) =~= v@.take(i as int) + seq![v@[i as int]]);
            lemma_escape_concat(v@.take(i as int), seq![v@[i as int]]);
            assert(seq![v@[i as int]].drop_first() =~= Seq::<char>::empty());
            assert(spec_escape(Seq::<char>::empty()) =~= Seq::<char>::empty());
            assert(spec_escape(seq![v@[i as int]]) =~= escape_char(v@[i as int]));
            assert(out@ =~= out0 + spec_escape(v@.take(i + 1 as int)));
        }
        i = i + 1;
    }
    proof {
        assert(v@.take(n as int) =~= v@);
    }
}

/// Appends a quoted, escaped string to `out`.
fn push_string(out: &mut Vec<char>, s: &str)
    ensures
        final(out)@ == old(out)@ + spec_render_string(s@),
{
    out.push('"');
    let cs = str_to_chars(s);
    push_escaped(out, &cs);
    out.push('"');
    proof {
        assert(out@ =~= old(out)@ + spec_render_string(s@));
    }
}

/// Appends the decimal digits of `n` to `out`.
fn push_digits(out: &mut Vec<char>, n: u64)
    ensures
        final(out)@ == old(out)@ + spec_digits(n as int),
    decreases n,
{
    if n <= 9 {
        out.push(digit_char_exec(n));
        proof {
            assert(out@ =~= old(out)@ + spec_digits(n as int));
        }
    } else {
        push_digits(out, n / 10);
        out.push(digit_char_exec(n % 10));
        proof {
            assert(out@ =~= old(out)@ + spec_digits(n as int));
        }
    }
}

/// Appends a milli-unit coordinate in its decimal form to `out`.
fn push_milli(out: &mut Vec<char>, m: i64)
    ensures
        final(out)@ == old(out)@ + spec_render_milli(m as int),
{
    let mag: u64;
    if m < 0 {
        out.push('-');
        if m == i64::MIN {
            mag = 9223372036854775808u64;
        } else {
            mag = (-m) as u64;
        }
    } else {
        mag = m as u64;
    }
    proof {
        assert(mag as int == vstd::math::abs(m as int));
    }
    push_digits(out, mag / 1000);
    out.push('.');
    let f = mag % 1000;
    out.push(digit_char_exec(f / 100));
    out.push(digit_char_exec((f / 10) % 10));
    out.push(digit_char_exec(f % 10));
    proof {
        assert(out@ =~= old(out)@ + spec_render_milli(m as int));
    }
}

/// Appends one point record to `out`.
fn push_point(out: &mut Vec<char>, p: &MapPoint)
    ensures
        final(out)@ == old(out)@ + spec_render_point(p@),
{
    out.push('(');
    out.push('x');
    out.push(':');
    push_milli(out, p.x_milli);
    out.push(',');
    out.push('y');
    out.push(':');
    push_milli(out, p.y_milli);
    out.push(',');
    push_lit(out, "description");
    out.push(':');
    push_string(out, p.description.as_str());
    out.push(')');
    proof {
        reveal_strlit("description");
        assert("description"@ =~= lit_description());
        assert(out@ =~= old(out)@ + spec_render_point(p@));
    }
}

/// Appends the point records from index `i` on, separated by commas.
fn push_points_from(out: &mut Vec<char>, pts: &Vec<MapPoint>, i: usize)
    requires
        i <= pts@.len(),
    ensures
        final(out)@ == old(out)@ + spec_render_points(pts@.map_values(|p: MapPoint| p@).skip(i as int)),
    decreases pts@.len() - i,
{
    let ghost pv = pts@.map_values(|p: MapPoint| p@);
    if i == pts.len() {
        proof {
            assert(pv.skip(i as int) =~= Seq::<MapPointView>::empty());
        }
        return ;
    }
    push_point(out, &pts[i]);
    if i + 1 == pts.len() {
        proof {
            assert(pv.skip(i as int).len() == 1);
            assert(pv.skip(i as int)[0] == pv[i as int]);
            assert(out@ =~= old(out)@ + spec_render_points(pv.skip(i as int)));
        }
    } else {
        out.push(',');
        push_points_from(out, pts, i + 1);
        proof {
            assert(pv.skip(i as int).len() >= 2);
            assert(pv.skip(i as int)[0] == pv[i as int]);
            assert(pv.skip(i as int).drop_first() =~= pv.skip(i + 1 as int));
            assert(out@ =~= old(out)@ + spec_render_points(pv.skip(i as int)));
        }
    }
}

/// Serializes a document to its canonical text.
pub fn render_region(d: &RegionData) -> (s: String)
    ensures
        s@ == spec_render_doc(d@),
{
    let mut out: Vec<char> = Vec::new();
    out.push('(');
    push_lit(&mut out, "name");
    out.push(':');
    push_string(&mut out, d.name.as_str());
    out.push(',');
    push_lit(&mut out, "image");
    out.push(':');
    push_string(&mut out, d.image.as_str());
    out.push(',');
    push_lit(&mut out, "description");
    out.push(':');
    push_string(&mut out, d.description.as_str());
    out.push(',');
    push_lit(&mut out, "points");
    out.push(':');
    out.push('[');
    push_points_from(&mut out, &d.points, 0);
    out.push(']');
    out.push(')');
    proof {
        reveal_strlit("name");
        reveal_strlit("image");
        reveal_strlit("description");
        reveal_strlit("points");
        assert("name"@ =~= lit_name());
        assert("image"@ =~= lit_image());
        assert("description"@ =~= lit_description());
        assert("points"@ =~= lit_points());
        assert(d@.points.skip(0) =~= d@.points);
        assert(out@ =~= spec_render_doc(d@));
    }
    chars_to_string(&out)
}

// ------------------------------------------------------------ parser lemmas
/// Skipping whitespace stays within the text.
pub proof fn lemma_ws_end_bounds(s: Seq<char>, pos: int)
    requires
        0 <= pos <= s.len(),
    ensures
        pos <= ws_end(s, pos) <= s.len(),
    decreases s.len() - pos,
{
    if pos < s.len() && is_ws_char(s[pos]) {
        lemma_ws_end_bounds(s, pos + 1);
    }
}

/// Scanning a digit run stays within the text.
pub proof fn lemma_digits_end_bounds(s: Seq<char>, pos: int)
    requires
        0 <= pos <= s.len(),
    ensures
        pos <= digits_end(s, pos) <= s.len(),
    decreases s.len() - pos,
{
    if pos < s.len() && is_digit_char(s[pos]) {
        lemma_digits_end_bounds(s, pos + 1);
    }
}

/// Every character of a digit run is a digit.
pub proof fn lemma_digits_end_digits(s: Seq<char>, pos: int)
    requires
        0 <= pos <= s.len(),
    ensures
        forall|j: int| pos <= j < digits_end(s, pos) ==> is_digit_char(#[trigger] s[j]),
    decreases s.len() - pos,
{
    if pos < s.len() && is_digit_char(s[pos]) {
        lemma_digits_end_digits(s, pos + 1);
    }
}

/// The value of a digit run is never negative.
pub proof fn lemma_digits_val_nonneg(s: Seq<char>, pos: int, end: int)
    ensures
        digits_val(s, pos, end) >= 0,
    decreases end - pos,
{
    if pos < end {
        lemma_digits_val_nonneg(s, pos, end - 1);
    }
}

/// Extending a digit run never shrinks its value.
pub proof fn lemma_digits_val_mono(s: Seq<char>, pos: int, mid: int, end: int)
    requires
        pos <= mid <= end,
    ensures
        digits_val(s, pos, end) >= digits_val(s, pos, mid),
    decreases end - mid,
{
    if mid < end {
        lemma_digits_val_mono(s, pos, mid, end - 1);
        lemma_digits_val_nonneg(s, pos, end - 1);
    }
}

pub open spec fn pow10(k: int) -> int
    decreases k,
{
    if k <= 0 {
        1
    } else {
        10 * pow10(k - 1)
    }
}

/// A run of `k` digits has a value below ten to the `k`.
pub proof fn lemma_digits_val_upper(s: Seq<char>, pos: int, end: int)
    requires
        pos <= end,
        forall|j: int| pos <= j < end ==> is_digit_char(#[trigger] s[j]),
    ensures
        0 <= digits_val(s, pos, end) < pow10(end - pos),
    decreases end - pos,
{
    if pos < end {
        lemma_digits_val_upper(s, pos, end - 1);
        assert(is_digit_char(s[end - 1]));
    }
}

// -------------------------------------------------------------- exec parser
fn digit_val_exec(c: char) -> (r: u64)
    ensures
        r as int == digit_val(c),
{
    if c == '0' {
        0
    } else if c == '1' {
        1
    } else if c == '2' {
        2
    } else if c == '3' {
        3
    } else if c == '4' {
        4
    } else if c == '5' {
        5
    } else if c == '6' {
        6
    } else if c == '7' {
        7
    } else if c == '8' {
        8
    } else if c == '9' {
        9
    } else {
        10
    }
}

fn ws_end_exec(s: &Vec<char>, pos: usize) -> (r: usize)
    requires
        pos <= s@.len(),
    ensures
        r as int == ws_end(s@, pos as int),
        pos <= r <= s@.len(),
{
    let n = s.len();
    let mut i = pos;
    while i < n
        invariant
            pos <= i <= n,
            n == s@.len(),
            ws_end(s@, pos as int) == ws_end(s@, i as int),
        decreases n - i,
    {
        let c = s[i];
        if !(c == ' ' || c == '\n' || c == '\t' || c == '\r') {
            return i;
        }
        i = i + 1;
    }
    i
}

fn digits_end_exec(s: &Vec<char>, pos: usize) -> (r: usize)
    requires
        pos <= s@.len(),
    ensures
        r as int == digits_end(s@, pos as int),
        pos <= r <= s@.len(),
{
    let n = s.len();
    let mut i = pos;
    while i < n
        invariant
            pos <= i <= n,
            n == s@.len(),
            digits_end(s@, pos as int) == digits_end(s@, i as int),
        decreases n - i,
    {
        if digit_val_exec(s[i]) >= 10 {
            return i;
        }
        i = i + 1;
    }
    i
}

fn expect_char_exec(s: &Vec<char>, pos: usize, c: char) -> (r: Option<usize>)
    requires
        pos <= s@.len(),
    ensures
        match r {
            Some(p) => expect_char(s@, pos as int, c) == Some(p as int) && pos < p <= s@.len(),
            None => expect_char(s@, pos as int, c) is None,
        },
{
    if pos < s.len() && s[pos] == c {
        Some(pos + 1)
    } else {
        None
    }
}

fn expect_lit_exec(s: &Vec<char>, pos: usize, lit: &str) -> (r: Option<usize>)
    requires
        pos <= s@.len(),
    ensures
        match r {
            Some(p) => expect_lit(s@, pos as int, lit@) == Some(p as int) && pos <= p <= s@.len(),
            None => expect_lit(s@, pos as int, lit@) is None,
        },
{
    let n = lit.unicode_len();
    let mut i: usize = 0;
    let mut cur = pos;
    proof {
        assert(lit@.skip(0) =~= lit@);
    }
    while i < n
        invariant
            i <= n,
            n == lit@.len(),
            pos <= cur <= s@.len(),
            expect_lit(s@, pos as int, lit@) == expect_lit(s@, cur as int, lit@.skip(i as int)),
        decreases n - i,
    {
        let c = lit.get_char(i);
        proof {
            assert(lit@.skip(i as int).len() > 0);
            assert(lit@.skip(i as int)[0] == lit@[i as int]);
        }
        if cur >= s.len() || s[cur] != c {
            return None;
        }
        proof {
            assert(lit@.skip(i as int).drop_first() =~= lit@.skip(i as int + 1));
        }
        cur = cur + 1;
        i = i + 1;
    }
    proof {
        assert(lit@.skip(n as int) =~= Seq::<char>::empty());
    }
    Some(cur)
}

fn parse_string_exec(s: &Vec<char>, pos: usize) -> (r: Option<(String, usize)>)
    requires
        pos <= s@.len(),
    ensures
        match r {
            Some((v, e)) => parse_string(s@, pos as int) == Some((v@, e as int)) && pos < e
                <= s@.len(),
            None => parse_string(s@, pos as int) is None,
        },
{
    if !(pos < s.len() && s[pos] == '"') {
        return None;
    }
    let mut cur = pos + 1;
    let mut acc: Vec<char> = Vec::new();
    proof {
        match parse_string_body(s@, pos as int + 1) {
            Some((rest, e)) => {
                assert(Seq::<char>::empty() + rest =~= rest);
            },
            None => {},
        }
    }
    loop
        invariant
            pos + 1 <= cur <= s@.len(),
            pos < s@.len(),
            s@[pos as int] == '"',
            ({
                let whole = parse_string_body(s@, pos as int + 1);
                match parse_string_body(s@, cur as int) {
                    Some((rest, e)) => whole == Some((acc@ + rest, e)),
                    None => whole is None,
                }
            }),
        decreases s@.len() - cur,
    {
        if cur >= s.len() {
            return None;
        }
        let c = s[cur];
        if c == '"' {
            proof {
                assert(acc@ + Seq::<char>::empty() =~= acc@);
            }
            let st = chars_to_string(&acc);
            return Some((st, cur + 1));
        } else if c == '\\' {
            if cur + 1 >= s.len() {
                return None;
            }
            let e = s[cur + 1];
            let u: char;
            if e == '"' {
                u = '"';
            } else if e == '\\' {
                u = '\\';
            } else if e == 'n' {
                u = '\n';
            } else if e == 't' {
                u = '\t';
            } else if e == 'r' {
                u = '\r';
            } else {
                return None;
            }
            proof {
                match parse_string_body(s@, cur as int + 2) {
                    Some((rest, e2)) => {
                        assert(acc@ + (seq![u] + rest) =~= acc@.push(u) + rest);
                    },
                    None => {},
                }
            }
            acc.push(u);
            cur = cur + 2;
        } else {
            proof {
                match parse_string_body(s@, cur as int + 1) {
                    Some((rest, e2)) => {
                        assert(acc@ + (seq![c] + rest) =~= acc@.push(c) + rest);
                    },
                    None => {},
                }
            }
            acc.push(c);
            cur = cur + 1;
        }
    }
}

/// The value of the digit run from `from` to `to` when it is at most
/// `limit`; `None` when it exceeds the limit.
fn digits_val_upto(s: &Vec<char>, from: usize, to: usize, limit: u64) -> (r: Option<u64>)
    requires
        from <= to <= s@.len(),
        limit <= 1_000_000_000_000_000_000u64,
        forall|j: int| from <= j < to ==> is_digit_char(#[trigger] s@[j]),
    ensures
        match r {
            Some(v) => v as int == digits_val(s@, from as int, to as int) && v <= limit,
            None => digits_val(s@, from as int, to as int) > limit,
        },
{
    let mut acc: u64 = 0;
    let mut i = from;
    while i < to
        invariant
            from <= i <= to,
            to <= s@.len(),
            acc as int == digits_val(s@, from as int, i as int),
            acc <= limit,
            limit <= 1_000_000_000_000_000_000u64,
            forall|j: int| from <= j < to ==> is_digit_char(#[trigger] s@[j]),
        decreases to - i,
    {
        let d = digit_val_exec(s[i]);
        proof {
            assert(is_digit_char(s@[i as int]));
        }
        let next = acc * 10 + d;
        if next > limit {
            proof {
                lemma_digits_val_mono(s@, from as int, i as int + 1, to as int);
            }
            return None;
        }
        acc = next;
        i = i + 1;
    }
    Some(acc)
}

fn parse_number_exec(s: &Vec<char>, pos: usize) -> (r: Option<(i64, usize)>)
    requires
        pos <= s@.len(),
    ensures
        match r {
            Some((v, e)) => parse_number(s@, pos as int) == Some((v as int, e as int)) && pos < e
                <= s@.len(),
            None => parse_number(s@, pos as int) is None,
        },
{
    let neg = pos < s.len() && s[pos] == '-';
    let p1 = if neg {
        pos + 1
    } else {
        pos
    };
    let de = digits_end_exec(s, p1);
    if de == p1 {
        return None;
    }
    proof {
        lemma_digits_end_digits(s@, p1 as int);
        lemma_digits_val_nonneg(s@, p1 as int, de as int);
    }
    let ip = match digits_val_upto(s, p1, de, 9_223_372_036_854_775u64) {
        Some(v) => v,
        None => {
            proof {
                match parse_fraction(s@, de as int) {
                    Some((fr, e2)) => {
                        let fe = digits_end(s@, de as int + 1);
                        lemma_digits_val_nonneg(s@, de as int + 1, fe);
                    },
                    None => {},
                }
            }
            return None;
        },
    };
    let mut fr: u64 = 0;
    let mut end: usize = de;
    if de < s.len() && s[de] == '.' {
        let fe = digits_end_exec(s, de + 1);
        let k = fe - (de + 1);
        if k < 1 || k > 3 {
            return None;
        }
        proof {
            lemma_digits_end_digits(s@, de as int + 1);
            lemma_digits_val_upper(s@, de as int + 1, fe as int);
            assert(pow10(0) == 1);
            assert(pow10(1) == 10);
            assert(pow10(2) == 100);
            assert(pow10(3) == 1000);
        }
        let fv = match digits_val_upto(s, de + 1, fe, 999) {
            Some(v) => v,
            None => {
                // a run of at most three digits is at most 999
                proof {
                    assert(false);
                }
                return None;
            },
        };
        fr = if k == 1 {
            fv * 100
        } else if k == 2 {
            fv * 10
        } else {
            fv
        };
        end = fe;
    }
    let mag: u64 = ip * 1000 + fr;
    if neg {
        if mag > 9_223_372_036_854_775_808u64 {
            return None;
        }
        let v: i64 = if mag == 9_223_372_036_854_775_808u64 {
            i64::MIN
        } else {
            -(mag as i64)
        };
        Some((v, end))
    } else {
        if mag > 9_223_372_036_854_775_807u64 {
            return None;
        }
        Some((mag as i64, end))
    }
}

fn parse_field_head_exec(s: &Vec<char>, pos: usize, name: &str) -> (r: Option<usize>)
    requires
        pos <= s@.len(),
    ensures
        match r {
            Some(p) => parse_field_head(s@, pos as int, name@) == Some(p as int) && pos <= p
                <= s@.len(),
            None => parse_field_head(s@, pos as int, name@) is None,
        },
{
    match expect_lit_exec(s, pos, name) {
        None => None,
        Some(p) => {
            let q = ws_end_exec(s, p);
            match expect_char_exec(s, q, ':') {
                None => None,
                Some(q2) => Some(ws_end_exec(s, q2)),
            }
        },
    }
}

fn skip_opt_comma_exec(s: &Vec<char>, pos: usize) -> (r: usize)
    requires
        pos <= s@.len(),
    ensures
        r as int == skip_opt_comma(s@, pos as int),
        pos <= r <= s@.len(),
{
    if pos < s.len() && s[pos] == ',' {
        ws_end_exec(s, pos + 1)
    } else {
        pos
    }
}

fn parse_point_exec(s: &Vec<char>, pos: usize) -> (r: Option<(MapPoint, usize)>)
    requires
        pos <= s@.len(),
    ensures
        match r {
            Some((p, e)) => parse_point(s@, pos as int) == Some((p@, e as int)) && pos < e
                <= s@.len(),
            None => parse_point(s@, pos as int) is None,
        },
{
    proof {
        reveal_strlit("x");
        reveal_strlit("y");
        reveal_strlit("description");
        assert("x"@ =~= seq!['x']);
        assert("y"@ =~= seq!['y']);
        assert("description"@ =~= lit_description());
    }
    let p0 = match expect_char_exec(s, pos, '(') {
        Some(p) => p,
        None => {
            return None;
        },
    };
    let w0 = ws_end_exec(s, p0);
    let p1 = match parse_field_head_exec(s, w0, "x") {
        Some(p) => p,
        None => {
            return None;
        },
    };
    let (xv, p2) = match parse_number_exec(s, p1) {
        Some(t) => t,
        None => {
            return None;
        },
    };
    let w2 = ws_end_exec(s, p2);
    let p3 = match expect_char_exec(s, w2, ',') {
        Some(p) => p,
        None => {
            return None;
        },
    };
    let w3 = ws_end_exec(s, p3);
    let p4 = match parse_field_head_exec(s, w3, "y") {
        Some(p) => p,
        None => {
            return None;
        },
    };
    let (yv, p5) = match parse_number_exec(s, p4) {
        Some(t) => t,
        None => {
            return None;
        },
    };
    let w5 = ws_end_exec(s, p5);
    let p6 = match expect_char_exec(s, w5, ',') {
        Some(p) => p,
        None => {
            return None;
        },
    };
    let w6 = ws_end_exec(s, p6);
    let p7 = match parse_field_head_exec(s, w6, "description") {
        Some(p) => p,
        None => {
            return None;
        },
    };
    let (desc, p8) = match parse_string_exec(s, p7) {
        Some(t) => t,
        None => {
            return None;
        },
    };
    let w8 = ws_end_exec(s, p8);
    let sc = skip_opt_comma_exec(s, w8);
    let end = match expect_char_exec(s, sc, ')') {
        Some(p) => p,
        None => {
            return None;
        },
    };
    let point = MapPoint { x_milli: xv, y_milli: yv, description: desc };
    Some((point, end))
}

fn parse_points_exec(s: &Vec<char>, pos: usize) -> (r: Option<(Vec<MapPoint>, usize)>)
    requires
        pos <= s@.len(),
    ensures
        match r {
            Some((v, e)) => parse_points(s@, pos as int) == Some(
                (v@.map_values(|p: MapPoint| p@), e as int),
            ) && pos < e <= s@.len(),
            None => parse_points(s@, pos as int) is None,
        },
    decreases s@.len() - pos,
{
    if pos < s.len() && s[pos] == ']' {
        let v: Vec<MapPoint> = Vec::new();
        proof {
            assert(v@.map_values(|p: MapPoint| p@) =~= Seq::<MapPointView>::empty());
        }
        return Some((v, pos + 1));
    }
    let (p, end) = match parse_point_exec(s, pos) {
        Some(t) => t,
        None => {
            return None;
        },
    };
    let q = ws_end_exec(s, end);
    if q < s.len() && s[q] == ',' {
        let q2 = ws_end_exec(s, q + 1);
        match parse_points_exec(s, q2) {
            Some((mut rest, e)) => {
                let ghost rest0 = rest@;
                rest.insert(0, p);
                proof {
                    assert(rest@ =~= seq![p] + rest0);
                    assert(rest@.map_values(|pt: MapPoint| pt@) =~= seq![p@] + rest0.map_values(
                        |pt: MapPoint| pt@,
                    ));
                }
                Some((rest, e))
            },
            None => None,
        }
    } else if q < s.len() && s[q] == ']' {
        let mut v: Vec<MapPoint> = Vec::new();
        v.push(p);
        proof {
            assert(v@.map_values(|pt: MapPoint| pt@) =~= seq![p@]);
        }
        Some((v, q + 1))
    } else {
        None
    }
}

fn parse_doc_exec(s: &Vec<char>) -> (r: Option<RegionData>)
    ensures
        match r {
            Some(d) => parse_doc(s@) == Some(d@),
            None => parse_doc(s@) is None,
        },
{
    proof {
        reveal_strlit("name");
        reveal_strlit("image");
        reveal_strlit("description");
        reveal_strlit("points");
        assert("name"@ =~= lit_name());
        assert("image"@ =~= lit_image());
        assert("description"@ =~= lit_description());
        assert("points"@ =~= lit_points());
    }
    let w = ws_end_exec(s, 0);
    let p0 = match expect_char_exec(s, w, '(') {
        Some(p) => p,
        None => {
            return None;
        },
    };
    let w0 = ws_end_exec(s, p0);
    let p1 = match parse_field_head_exec(s, w0, "name") {
        Some(p) => p,
        None => {
            return None;
        },
    };
    let (name, p2) = match parse_string_exec(s, p1) {
        Some(t) => t,
        None => {
            return None;
        },
    };
    let w2 = ws_end_exec(s, p2);
    let p3 = match expect_char_exec(s, w2, ',') {
        Some(p) => p,
        None => {
            return None;
        },
    };
    let w3 = ws_end_exec(s, p3);
    let p4 = match parse_field_head_exec(s, w3, "image") {
        Some(p) => p,
        None => {
            return None;
        },
    };
    let (image, p5) = match parse_string_exec(s, p4) {
        Some(t) => t,
        None => {
            return None;
        },
    };
    let w5 = ws_end_exec(s, p5);
    let p6 = match expect_char_exec(s, w5, ',') {
        Some(p) => p,
        None => {
            return None;
        },
    };
    let w6 = ws_end_exec(s, p6);
    let p7 = match parse_field_head_exec(s, w6, "description") {
        Some(p) => p,
        None => {
            return None;
        },
    };
    let (description, p8) = match parse_string_exec(s, p7) {
        Some(t) => t,
        None => {
            return None;
        },
    };
    let w8 = ws_end_exec(s, p8);
    let p9 = match expect_char_exec(s, w8, ',') {
        Some(p) => p,
        None => {
            return None;
        },
    };
    let w9 = ws_end_exec(s, p9);
    let p10 = match parse_field_head_exec(s, w9, "points") {
        Some(p) => p,
        None => {
            return None;
        },
    };
    let p11 = match expect_char_exec(s, p10, '[') {
        Some(p) => p,
        None => {
            return None;
        },
    };
    let w11 = ws_end_exec(s, p11);
    let (points, p12) = match parse_points_exec(s, w11) {
        Some(t) => t,
        None => {
            return None;
        },
    };
    let w12 = ws_end_exec(s, p12);
    let sc = skip_opt_comma_exec(s, w12);
    let p13 = match expect_char_exec(s, sc, ')') {
        Some(p) => p,
        None => {
            return None;
        },
    };
    let wf = ws_end_exec(s, p13);
    if wf != s.len() {
        return None;
    }
    Some(RegionData { name, image, description, points })
}

/// Deserializes a document from text; fails with [`LoadError::Malformed`]
/// exactly when the text does not match the schema.
pub fn parse_region(s: &str) -> (r: Result<RegionData, LoadError>)
    ensures
        match r {
            Ok(d) => parse_doc(s@) == Some(d@),
            Err(e) => e == LoadError::Malformed && parse_doc(s@) is None,
        },
{
    let cs = str_to_chars(s);
    match parse_doc_exec(&cs) {
        Some(d) => Ok(d),
        None => Err(LoadError::Malformed),
    }
}

// ------------------------------------------------------- round-trip lemmas
/// A literal parses where the text holds it.
proof fn lemma_expect_lit_at(s: Seq<char>, pos: int, lit: Seq<char>)
    requires
        0 <= pos,
        pos + lit.len() <= s.len(),
        s.subrange(pos, pos + lit.len()) == lit,
    ensures
        expect_lit(s, pos, lit) == Some(pos + lit.len()),
    decreases lit.len(),
{
    if lit.len() > 0 {
        assert(s[pos] == s.subrange(pos, pos + lit.len())[0]);
        assert(s.subrange(pos + 1, pos + lit.len()) =~= lit.drop_first());
        lemma_expect_lit_at(s, pos + 1, lit.drop_first());
    }
}

/// A string body parses back to the characters it was rendered from,
/// stopping at the closing quote.
proof fn lemma_parse_string_body_at(s: Seq<char>, pos: int, v: Seq<char>)
    requires
        0 <= pos,
        pos + spec_escape(v).len() + 1 <= s.len(),
        s.subrange(pos, pos + spec_escape(v).len() + 1) == spec_escape(v) + seq!['"'],
    ensures
        parse_string_body(s, pos) == Some((v, pos + spec_escape(v).len() + 1)),
    decreases v.len(),
{
    let esc = spec_escape(v);
    let frag = esc + seq!['"'];
    assert(forall|j: int| pos <= j < pos + frag.len() ==> #[trigger] s[j] == frag[j - pos]) by {
        assert forall|j: int| pos <= j < pos + frag.len() implies #[trigger] s[j] == frag[j - pos]
        by {
            assert(s.subrange(pos, pos + frag.len())[j - pos] == s[j]);
        }
    }
    if v.len() == 0 {
        assert(esc =~= Seq::<char>::empty());
        assert(s[pos] == '"');
    } else {
        let c = v[0];
        let esc_rest = spec_escape(v.drop_first());
        assert(esc == escape_char(c) + esc_rest);
        if c == '"' || c == '\\' {
            assert(s[pos] == '\\');
            assert(s[pos + 1] == c);
            assert(unescape_char(c) == Some(c));
            assert(s.subrange(pos + 2, pos + esc.len() + 1) =~= esc_rest + seq!['"']) by {
                assert forall|i: int|
                    0 <= i < esc_rest.len() + 1 implies s.subrange(pos + 2, pos + esc.len() + 1)[i]
                    == (esc_rest + seq!['"'])[i] by {
                    assert(s[pos + 2 + i] == frag[2 + i]);
                }
            }
            lemma_parse_string_body_at(s, pos + 2, v.drop_first());
            assert(seq![c] + v.drop_first() =~= v);
        } else {
            assert(s[pos] == c);
            assert(s.subrange(pos + 1, pos + esc.len() + 1) =~= esc_rest + seq!['"']) by {
                assert forall|i: int|
                    0 <= i < esc_rest.len() + 1 implies s.subrange(pos + 1, pos + esc.len() + 1)[i]
                    == (esc_rest + seq!['"'])[i] by {
                    assert(s[pos + 1 + i] == frag[1 + i]);
                }
            }
            lemma_parse_string_body_at(s, pos + 1, v.drop_first());
            assert(seq![s[pos]] + v.drop_first() =~= v);
        }
    }
}

/// A rendered string parses back to its content.
proof fn lemma_parse_string_at(s: Seq<char>, pos: int, v: Seq<char>)
    requires
        0 <= pos,
        pos + spec_render_string(v).len() <= s.len(),
        s.subrange(pos, pos + spec_render_string(v).len()) == spec_render_string(v),
    ensures
        parse_string(s, pos) == Some((v, pos + spec_render_string(v).len())),
{
    let rs = spec_render_string(v);
    assert(rs[0] == '"');
    assert(s[pos] == s.subrange(pos, pos + rs.len())[0]);
    assert(s[pos] == '"');
    assert(s.subrange(pos + 1, pos + rs.len()) =~= spec_escape(v) + seq!['"']) by {
        assert forall|i: int|
            0 <= i < spec_escape(v).len() + 1 implies s.subrange(pos + 1, pos + rs.len())[i] == (
        spec_escape(v) + seq!['"'])[i] by {
            assert(s[pos + 1 + i] == s.subrange(pos, pos + rs.len())[1 + i]);
            assert(s.subrange(pos, pos + rs.len())[1 + i] == rs[1 + i]);
        }
    }
    lemma_parse_string_body_at(s, pos + 1, v);
}

/// The digit character of a digit value, and back.
proof fn lemma_digit_char_val(d: int)
    requires
        0 <= d <= 9,
    ensures
        is_digit_char(digit_char(d)),
        digit_val(digit_char(d)) == d,
        !is_ws_char(digit_char(d)),
{
}

/// Every character a number renders to is a digit.
proof fn lemma_spec_digits_are_digits(n: int)
    requires
        n >= 0,
    ensures
        spec_digits(n).len() >= 1,
        forall|j: int| 0 <= j < spec_digits(n).len() ==> is_digit_char(#[trigger] spec_digits(n)[j]),
    decreases n,
{
    if n <= 9 {
        assert(spec_digits(n)[0] == digit_char(n));
        lemma_digit_char_val(n);
    } else {
        lemma_spec_digits_are_digits(n / 10);
        lemma_digit_char_val(n % 10);
        assert(forall|j: int|
            0 <= j < spec_digits(n).len() ==> is_digit_char(#[trigger] spec_digits(n)[j])) by {
            assert(forall|j: int|
                0 <= j < spec_digits(n / 10).len() ==> #[trigger] spec_digits(n)[j] == spec_digits(
                    n / 10,
                )[j]);
            assert(spec_digits(n)[spec_digits(n).len() - 1] == digit_char(n % 10));
        }
    }
}

/// A digit run ends exactly where the digits end.
proof fn lemma_digits_end_run(s: Seq<char>, pos: int, end: int)
    requires
        0 <= pos <= end <= s.len(),
        forall|j: int| pos <= j < end ==> is_digit_char(#[trigger] s[j]),
        end == s.len() || !is_digit_char(s[end]),
    ensures
        digits_end(s, pos) == end,
    decreases end - pos,
{
    if pos < end {
        lemma_digits_end_run(s, pos + 1, end);
    }
}

/// Rendered digits parse back to the number they were rendered from.
proof fn lemma_digits_val_of_render(s: Seq<char>, pos: int, n: int)
    requires
        n >= 0,
        0 <= pos,
        pos + spec_digits(n).len() <= s.len(),
        s.subrange(pos, pos + spec_digits(n).len()) == spec_digits(n),
    ensures
        digits_val(s, pos, pos + spec_digits(n).len()) == n,
    decreases n,
{
    let ds = spec_digits(n);
    if n <= 9 {
        assert(s[pos] == s.subrange(pos, pos + 1)[0]);
        assert(s[pos] == digit_char(n));
        lemma_digit_char_val(n);
        assert(digits_val(s, pos, pos + 1) == digits_val(s, pos, pos) * 10 + digit_val(s[pos]));
    } else {
        let pre = spec_digits(n / 10);
        assert(ds == pre + seq![digit_char(n % 10)]);
        assert(s.subrange(pos, pos + pre.len()) =~= pre);
        lemma_digits_val_of_render(s, pos, n / 10);
        assert(s[pos + ds.len() - 1] == s.subrange(pos, pos + ds.len())[ds.len() - 1]);
        assert(s[pos + ds.len() - 1] == digit_char(n % 10));
        lemma_digit_char_val(n % 10);
        assert(digits_val(s, pos, pos + ds.len()) == digits_val(s, pos, pos + ds.len() - 1) * 10
            + digit_val(s[pos + ds.len() - 1]));
        assert(n / 10 * 10 + n % 10 == n);
    }
}

/// Three rendered fraction digits parse back to their value.
proof fn lemma_parse_frac3_at(s: Seq<char>, de: int, f: int)
    requires
        0 <= f < 1000,
        0 <= de,
        de + 4 <= s.len(),
        s[de] == '.',
        s[de + 1] == digit_char(f / 100),
        s[de + 2] == digit_char((f / 10) % 10),
        s[de + 3] == digit_char(f % 10),
        de + 4 == s.len() || !is_digit_char(s[de + 4]),
    ensures
        parse_fraction(s, de) == Some((f, de + 4)),
{
    lemma_digit_char_val(f / 100);
    lemma_digit_char_val((f / 10) % 10);
    lemma_digit_char_val(f % 10);
    assert(forall|j: int| de + 1 <= j < de + 4 ==> is_digit_char(#[trigger] s[j]));
    lemma_digits_end_run(s, de + 1, de + 4);
    assert(digits_val(s, de + 1, de + 1) == 0);
    assert(digits_val(s, de + 1, de + 2) == digits_val(s, de + 1, de + 1) * 10 + digit_val(
        s[de + 1],
    ));
    assert(digits_val(s, de + 1, de + 3) == digits_val(s, de + 1, de + 2) * 10 + digit_val(
        s[de + 2],
    ));
    assert(digits_val(s, de + 1, de + 4) == digits_val(s, de + 1, de + 3) * 10 + digit_val(
        s[de + 3],
    ));
    assert(((f / 100) * 10 + (f / 10) % 10) * 10 + f % 10 == f) by (nonlinear_arith)
        requires
            0 <= f < 1000,
    ;
}

/// The first character of a rendered coordinate: a sign or a digit, never
/// whitespace.
proof fn lemma_render_milli_head(m: int)
    ensures
        spec_render_milli(m).len() >= 5,
        !is_ws_char(spec_render_milli(m)[0]),
        m >= 0 ==> is_digit_char(spec_render_milli(m)[0]),
        m < 0 ==> spec_render_milli(m)[0] == '-',
{
    let a = vstd::math::abs(m) as int;
    lemma_spec_digits_are_digits(a / 1000);
    if m >= 0 {
        assert(spec_render_milli(m)[0] == spec_digits(a / 1000)[0]);
    }
}

/// A rendered coordinate parses back to its milli-unit value, provided the
/// character after it is not a digit.
#[verifier::rlimit(100)]
proof fn lemma_parse_number_at(s: Seq<char>, pos: int, m: int)
    requires
        i64::MIN <= m <= i64::MAX,
        0 <= pos,
        pos + spec_render_milli(m).len() <= s.len(),
        s.subrange(pos, pos + spec_render_milli(m).len()) == spec_render_milli(m),
        pos + spec_render_milli(m).len() == s.len() || !is_digit_char(
            s[pos + spec_render_milli(m).len()],
        ),
    ensures
        parse_number(s, pos) == Some((m, pos + spec_render_milli(m).len())),
{
    let a = vstd::math::abs(m) as int;
    let ip = a / 1000;
    let f = a % 1000;
    let digs = spec_digits(ip);
    let rm = spec_render_milli(m);
    let end = pos + rm.len();
    lemma_spec_digits_are_digits(ip);
    let p1: int = if m < 0 {
        pos + 1
    } else {
        pos
    };
    assert(forall|j: int| pos <= j < pos + rm.len() ==> #[trigger] s[j] == rm[j - pos]) by {
        assert forall|j: int| pos <= j < pos + rm.len() implies #[trigger] s[j] == rm[j - pos] by {
            assert(s.subrange(pos, pos + rm.len())[j - pos] == s[j]);
        }
    }
    if m < 0 {
        assert(rm[0] == '-');
        assert(s[pos] == '-');
    } else {
        assert(rm[0] == digs[0]);
        assert(is_digit_char(s[pos]));
        assert(s[pos] != '-');
    }
    // the digit run of the whole units
    assert(forall|j: int| p1 <= j < p1 + digs.len() ==> is_digit_char(#[trigger] s[j])) by {
        assert forall|j: int| p1 <= j < p1 + digs.len() implies is_digit_char(#[trigger] s[j]) by {
            assert(rm[j - pos] == digs[j - p1]);
        }
    }
    let de: int = p1 + digs.len() as int;
    assert(rm[de - pos] == '.');
    assert(s[de] == '.');
    lemma_digits_end_run(s, p1, de);
    assert(s.subrange(p1, de) =~= digs) by {
        assert forall|i: int| 0 <= i < digs.len() implies s.subrange(p1, de)[i] == digs[i] by {
            assert(s[p1 + i] == rm[p1 + i - pos]);
            assert(rm[p1 + i - pos] == digs[i]);
        }
    }
    lemma_digits_val_of_render(s, p1, ip);
    // the fraction digits
    assert(0 <= f < 1000);
    assert(rm[de - pos + 1] == digit_char(f / 100));
    assert(rm[de - pos + 2] == digit_char((f / 10) % 10));
    assert(rm[de - pos + 3] == digit_char(f % 10));
    assert(de + 4 == end);
    lemma_parse_frac3_at(s, de, f);
    // reassembly
    assert(ip * 1000 + f == a);
}

/// The character a point record starts with.
proof fn lemma_render_point_head(p: MapPointView)
    ensures
        spec_render_point(p).len() >= 1,
        spec_render_point(p)[0] == '(',
{
}

/// Where each piece of a rendered point record stands in the text around it.
#[verifier::rlimit(100)]
proof fn lemma_point_chars(s: Seq<char>, pos: int, p: MapPointView)
    requires
        0 <= pos,
        pos + spec_render_point(p).len() <= s.len(),
        s.subrange(pos, pos + spec_render_point(p).len()) == spec_render_point(p),
    ensures
        ({
            let mx = spec_render_milli(p.x_milli);
            let my = spec_render_milli(p.y_milli);
            let rs = spec_render_string(p.description);
            let o1 = pos + 3;
            let o2 = o1 + mx.len() as int;
            let o3 = o2 + 3;
            let o4 = o3 + my.len() as int;
            let o5 = o4 + 13;
            let o6 = o5 + rs.len() as int;
            &&& spec_render_point(p).len() == 3 + mx.len() + 3 + my.len() + 13 + rs.len() + 1
            &&& s[pos] == '('
            &&& s.subrange(pos + 1, pos + 2) == seq!['x']
            &&& s[pos + 2] == ':'
            &&& s.subrange(o1, o2) == mx
            &&& s[o2] == ','
            &&& s.subrange(o2 + 1, o2 + 2) == seq!['y']
            &&& s[o2 + 2] == ':'
            &&& s.subrange(o3, o4) == my
            &&& s[o4] == ','
            &&& s.subrange(o4 + 1, o4 + 12) == lit_description()
            &&& s[o4 + 12] == ':'
            &&& s.subrange(o5, o6) == rs
            &&& s[o6] == ')'
        }),
{
    let mx = spec_render_milli(p.x_milli);
    let my = spec_render_milli(p.y_milli);
    let rs = spec_render_string(p.description);
    let rp = spec_render_point(p);
    let o1 = pos + 3;
    let o2 = o1 + mx.len() as int;
    let o3 = o2 + 3;
    let o4 = o3 + my.len() as int;
    let o5 = o4 + 13;
    let o6 = o5 + rs.len() as int;
    assert(rp.len() == 3 + mx.len() + 3 + my.len() + 13 + rs.len() + 1);
    assert(forall|j: int| pos <= j < pos + rp.len() ==> #[trigger] s[j] == rp[j - pos]) by {
        assert forall|j: int| pos <= j < pos + rp.len() implies #[trigger] s[j] == rp[j - pos] by {
            assert(s.subrange(pos, pos + rp.len())[j - pos] == s[j]);
        }
    }
    assert(s[pos] == '(');
    assert(s[pos + 1] == 'x');
    assert(s.subrange(pos + 1, pos + 2) =~= seq!['x']);
    assert(s[pos + 2] == ':');
    assert(s.subrange(o1, o2) =~= mx) by {
        assert forall|i: int| 0 <= i < mx.len() implies s.subrange(o1, o2)[i] == mx[i] by {
            assert(s[o1 + i] == rp[o1 + i - pos]);
            assert(rp[o1 + i - pos] == mx[i]);
        }
    }
    assert(s[o2] == ',');
    assert(s[o2 + 1] == 'y');
    assert(s.subrange(o2 + 1, o2 + 2) =~= seq!['y']);
    assert(s[o2 + 2] == ':');
    assert(s.subrange(o3, o4) =~= my) by {
        assert forall|i: int| 0 <= i < my.len() implies s.subrange(o3, o4)[i] == my[i] by {
            assert(s[o3 + i] == rp[o3 + i - pos]);
            assert(rp[o3 + i - pos] == my[i]);
        }
    }
    assert(s[o4] == ',');
    assert(s.subrange(o4 + 1, o4 + 12) =~= lit_description()) by {
        assert forall|i: int|
            0 <= i < 11 implies s.subrange(o4 + 1, o4 + 12)[i] == lit_description()[i] by {
            assert(s[o4 + 1 + i] == rp[o4 + 1 + i - pos]);
            assert(rp[o4 + 1 + i - pos] == lit_description()[i]);
        }
    }
    assert(s[o4 + 12] == ':');
    assert(s.subrange(o5, o6) =~= rs) by {
        assert forall|i: int| 0 <= i < rs.len() implies s.subrange(o5, o6)[i] == rs[i] by {
            assert(s[o5 + i] == rp[o5 + i - pos]);
            assert(rp[o5 + i - pos] == rs[i]);
        }
    }
    assert(s[o6] == ')');
}

/// A rendered point record parses back to its point.
#[verifier::rlimit(100)]
proof fn lemma_parse_point_at(s: Seq<char>, pos: int, p: MapPointView)
    requires
        i64::MIN <= p.x_milli <= i64::MAX,
        i64::MIN <= p.y_milli <= i64::MAX,
        0 <= pos,
        pos + spec_render_point(p).len() <= s.len(),
        s.subrange(pos, pos + spec_render_point(p).len()) == spec_render_point(p),
    ensures
        parse_point(s, pos) == Some((p, pos + spec_render_point(p).len())),
{
    let mx = spec_render_milli(p.x_milli);
    let my = spec_render_milli(p.y_milli);
    let rs = spec_render_string(p.description);
    let rp = spec_render_point(p);
    let o1 = pos + 3;
    let o2 = o1 + mx.len() as int;
    let o3 = o2 + 3;
    let o4 = o3 + my.len() as int;
    let o5 = o4 + 13;
    let o6 = o5 + rs.len() as int;
    lemma_point_chars(s, pos, p);
    lemma_render_milli_head(p.x_milli);
    lemma_render_milli_head(p.y_milli);
    // field head for x
    lemma_expect_lit_at(s, pos + 1, seq!['x']);
    assert(ws_end(s, pos + 1) == pos + 1);
    assert(ws_end(s, pos + 2) == pos + 2);
    assert(s[o1] == s.subrange(o1, o2)[0]);
    assert(s[o1] == mx[0]);
    assert(!is_ws_char(s[o1]));
    assert(ws_end(s, o1) == o1);
    assert(parse_field_head(s, pos + 1, seq!['x']) == Some(o1));
    // x value
    lemma_parse_number_at(s, o1, p.x_milli);
    // field head for y
    assert(ws_end(s, o2) == o2);
    lemma_expect_lit_at(s, o2 + 1, seq!['y']);
    assert(ws_end(s, o2 + 1) == o2 + 1);
    assert(ws_end(s, o2 + 2) == o2 + 2);
    assert(s[o3] == s.subrange(o3, o4)[0]);
    assert(s[o3] == my[0]);
    assert(!is_ws_char(s[o3]));
    assert(ws_end(s, o3) == o3);
    assert(parse_field_head(s, o2 + 1, seq!['y']) == Some(o3));
    // y value
    lemma_parse_number_at(s, o3, p.y_milli);
    // field head for description
    assert(ws_end(s, o4) == o4);
    lemma_expect_lit_at(s, o4 + 1, lit_description());
    assert(ws_end(s, o4 + 1) == o4 + 1);
    assert(ws_end(s, o4 + 12) == o4 + 12);
    assert(s[o5] == s.subrange(o5, o6)[0]);
    assert(s[o5] == '"');
    assert(ws_end(s, o5) == o5);
    assert(parse_field_head(s, o4 + 1, lit_description()) == Some(o5));
    // description value
    lemma_parse_string_at(s, o5, p.description);
    // closing parenthesis
    assert(ws_end(s, o6) == o6);
    assert(skip_opt_comma(s, o6) == o6);
    assert(o6 + 1 == pos + rp.len());
}

/// Coordinates that fit the stored range, for every point of a sequence.
pub open spec fn points_storable(pts: Seq<MapPointView>) -> bool {
    forall|j: int|
        0 <= j < pts.len() ==> (i64::MIN <= #[trigger] pts[j].x_milli <= i64::MAX && i64::MIN
            <= pts[j].y_milli <= i64::MAX)
}

/// A rendered point list parses back to its points, up to the closing
/// bracket that follows it.
#[verifier::rlimit(100)]
proof fn lemma_parse_points_at(s: Seq<char>, pos: int, pts: Seq<MapPointView>)
    requires
        points_storable(pts),
        0 <= pos,
        pos + spec_render_points(pts).len() + 1 <= s.len(),
        s.subrange(pos, pos + spec_render_points(pts).len() + 1) == spec_render_points(pts)
            + seq![']'],
    ensures
        parse_points(s, pos) == Some((pts, pos + spec_render_points(pts).len() + 1)),
    decreases pts.len(),
{
    let rps = spec_render_points(pts);
    let frag = rps + seq![']'];
    assert(forall|j: int| pos <= j < pos + frag.len() ==> #[trigger] s[j] == frag[j - pos]) by {
        assert forall|j: int| pos <= j < pos + frag.len() implies #[trigger] s[j] == frag[j - pos]
        by {
            assert(s.subrange(pos, pos + frag.len())[j - pos] == s[j]);
        }
    }
    if pts.len() == 0 {
        assert(s[pos] == ']');
    } else {
        let rp0 = spec_render_point(pts[0]);
        lemma_render_point_head(pts[0]);
        assert(s[pos] == '(');
        assert(s.subrange(pos, pos + rp0.len()) =~= rp0) by {
            assert forall|i: int|
                0 <= i < rp0.len() implies s.subrange(pos, pos + rp0.len())[i] == rp0[i] by {
                assert(s[pos + i] == frag[i]);
                assert(frag[i] == rp0[i]);
            }
        }
        lemma_parse_point_at(s, pos, pts[0]);
        let end = pos + rp0.len();
        if pts.len() == 1 {
            assert(s[end] == ']');
            assert(ws_end(s, end) == end);
            assert(seq![pts[0]] =~= pts);
        } else {
            let rest = pts.drop_first();
            let rest_r = spec_render_points(rest);
            assert(rps == rp0 + seq![','] + rest_r);
            assert(s[end] == ',');
            assert(ws_end(s, end) == end);
            lemma_render_point_head(rest[0]);
            assert(rest_r[0] == '(');
            assert(s[end + 1] == '(');
            assert(ws_end(s, end + 1) == end + 1);
            assert(s.subrange(end + 1, end + 1 + rest_r.len() + 1) =~= rest_r + seq![']']) by {
                assert forall|i: int|
                    0 <= i < rest_r.len() + 1 implies s.subrange(end + 1, end + 1 + rest_r.len()
                    + 1)[i] == (rest_r + seq![']'])[i] by {
                    assert(s[end + 1 + i] == frag[end + 1 + i - pos]);
                    assert(frag[end + 1 + i - pos] == (rest_r + seq![']'])[i]);
                }
            }
            lemma_parse_points_at(s, end + 1, rest);
            assert(seq![pts[0]] + rest =~= pts);
        }
    }
}

/// Coordinates that fit the stored range, for every point of a document.
pub open spec fn doc_storable(d: RegionDataView) -> bool {
    points_storable(d.points)
}

/// Where each piece of a rendered document stands in its text.
#[verifier::rlimit(100)]
proof fn lemma_doc_chars(d: RegionDataView)
    ensures
        ({
            let s = spec_render_doc(d);
            let rn = spec_render_string(d.name);
            let ri = spec_render_string(d.image);
            let rd = spec_render_string(d.description);
            let rps = spec_render_points(d.points);
            let o2 = 6 + rn.len() as int;
            let o3 = o2 + 7;
            let o4 = o3 + ri.len() as int;
            let o5 = o4 + 13;
            let o6 = o5 + rd.len() as int;
            let o7 = o6 + 9;
            let o8 = o7 + rps.len() as int;
            &&& s.len() == o8 + 2
            &&& s[0] == '('
            &&& s.subrange(1, 5) == lit_name()
            &&& s[5] == ':'
            &&& s.subrange(6, o2) == rn
            &&& s[o2] == ','
            &&& s.subrange(o2 + 1, o2 + 6) == lit_image()
            &&& s[o2 + 6] == ':'
            &&& s.subrange(o3, o4) == ri
            &&& s[o4] == ','
            &&& s.subrange(o4 + 1, o4 + 12) == lit_description()
            &&& s[o4 + 12] == ':'
            &&& s.subrange(o5, o6) == rd
            &&& s[o6] == ','
            &&& s.subrange(o6 + 1, o6 + 7) == lit_points()
            &&& s[o6 + 7] == ':'
            &&& s[o6 + 8] == '['
            &&& s.subrange(o7, o8 + 1) == rps + seq![']']
            &&& s[o8 + 1] == ')'
        }),
{
    let s = spec_render_doc(d);
    let rn = spec_render_string(d.name);
    let ri = spec_render_string(d.image);
    let rd = spec_render_string(d.description);
    let rps = spec_render_points(d.points);
    let o2 = 6 + rn.len() as int;
    let o3 = o2 + 7;
    let o4 = o3 + ri.len() as int;
    let o5 = o4 + 13;
    let o6 = o5 + rd.len() as int;
    let o7 = o6 + 9;
    let o8 = o7 + rps.len() as int;
    assert(s.len() == o8 + 2);
    assert(s[0] == '(');
    assert(s.subrange(1, 5) =~= lit_name()) by {
        assert forall|i: int| 0 <= i < 4 implies s.subrange(1, 5)[i] == lit_name()[i] by {
            assert(s[1 + i] == lit_name()[i]);
        }
    }
    assert(s[5] == ':');
    assert(s.subrange(6, o2) =~= rn) by {
        assert forall|i: int| 0 <= i < rn.len() implies s.subrange(6, o2)[i] == rn[i] by {
            assert(s[6 + i] == rn[i]);
        }
    }
    assert(s[o2] == ',');
    assert(s.subrange(o2 + 1, o2 + 6) =~= lit_image()) by {
        assert forall|i: int| 0 <= i < 5 implies s.subrange(o2 + 1, o2 + 6)[i] == lit_image()[i]
        by {
            assert(s[o2 + 1 + i] == lit_image()[i]);
        }
    }
    assert(s[o2 + 6] == ':');
    assert(s.subrange(o3, o4) =~= ri) by {
        assert forall|i: int| 0 <= i < ri.len() implies s.subrange(o3, o4)[i] == ri[i] by {
            assert(s[o3 + i] == ri[i]);
        }
    }
    assert(s[o4] == ',');
    assert(s.subrange(o4 + 1, o4 + 12) =~= lit_description()) by {
        assert forall|i: int|
            0 <= i < 11 implies s.subrange(o4 + 1, o4 + 12)[i] == lit_description()[i] by {
            assert(s[o4 + 1 + i] == lit_description()[i]);
        }
    }
    assert(s[o4 + 12] == ':');
    assert(s.subrange(o5, o6) =~= rd) by {
        assert forall|i: int| 0 <= i < rd.len() implies s.subrange(o5, o6)[i] == rd[i] by {
            assert(s[o5 + i] == rd[i]);
        }
    }
    assert(s[o6] == ',');
    assert(s.subrange(o6 + 1, o6 + 7) =~= lit_points()) by {
        assert forall|i: int| 0 <= i < 6 implies s.subrange(o6 + 1, o6 + 7)[i] == lit_points()[i]
        by {
            assert(s[o6 + 1 + i] == lit_points()[i]);
        }
    }
    assert(s[o6 + 7] == ':');
    assert(s[o6 + 8] == '[');
    assert(s.subrange(o7, o8 + 1) =~= rps + seq![']']) by {
        assert forall|i: int|
            0 <= i < rps.len() + 1 implies s.subrange(o7, o8 + 1)[i] == (rps + seq![']'])[i] by {
            assert(s[o7 + i] == (rps + seq![']'])[i]);
        }
    }
    assert(s[o8 + 1] == ')');
}

/// The view of any document a program holds is storable: its coordinates
/// are machine integers.
proof fn lemma_doc_storable(d: RegionData)
    ensures
        doc_storable(d@),
{
    assert forall|j: int|
        0 <= j < d@.points.len() implies (i64::MIN <= #[trigger] d@.points[j].x_milli <= i64::MAX
        && i64::MIN <= d@.points[j].y_milli <= i64::MAX) by {
        assert(d@.points[j] == d.points@[j]@);
    }
}

/// Parsing inverts rendering: a document's canonical text loads back to a
/// value equal in every field — name, image reference, description, and
/// every point's coordinates and description, in order.
#[verifier::rlimit(100)]
pub proof fn lemma_parse_inverts_render(d: RegionDataView)
    requires
        doc_storable(d),
    ensures
        parse_doc(spec_render_doc(d)) == Some(d),
{
    let s = spec_render_doc(d);
    let rn = spec_render_string(d.name);
    let ri = spec_render_string(d.image);
    let rd = spec_render_string(d.description);
    let rps = spec_render_points(d.points);
    let o2 = 6 + rn.len() as int;
    let o3 = o2 + 7;
    let o4 = o3 + ri.len() as int;
    let o5 = o4 + 13;
    let o6 = o5 + rd.len() as int;
    let o7 = o6 + 9;
    let o8 = o7 + rps.len() as int;
    lemma_doc_chars(d);
    assert(ws_end(s, 0) == 0);
    // name field
    lemma_expect_lit_at(s, 1, lit_name());
    assert(ws_end(s, 1) == 1);
    assert(ws_end(s, 5) == 5);
    assert(s[6] == s.subrange(6, o2)[0]);
    assert(s[6] == '"');
    assert(ws_end(s, 6) == 6);
    assert(parse_field_head(s, 1, lit_name()) == Some(6int));
    lemma_parse_string_at(s, 6, d.name);
    assert(ws_end(s, o2) == o2);
    // image field
    lemma_expect_lit_at(s, o2 + 1, lit_image());
    assert(ws_end(s, o2 + 1) == o2 + 1);
    assert(ws_end(s, o2 + 6) == o2 + 6);
    assert(s[o3] == s.subrange(o3, o4)[0]);
    assert(s[o3] == '"');
    assert(ws_end(s, o3) == o3);
    assert(parse_field_head(s, o2 + 1, lit_image()) == Some(o3));
    lemma_parse_string_at(s, o3, d.image);
    assert(ws_end(s, o4) == o4);
    // description field
    lemma_expect_lit_at(s, o4 + 1, lit_description());
    assert(ws_end(s, o4 + 1) == o4 + 1);
    assert(ws_end(s, o4 + 12) == o4 + 12);
    assert(s[o5] == s.subrange(o5, o6)[0]);
    assert(s[o5] == '"');
    assert(ws_end(s, o5) == o5);
    assert(parse_field_head(s, o4 + 1, lit_description()) == Some(o5));
    lemma_parse_string_at(s, o5, d.description);
    assert(ws_end(s, o6) == o6);
    // points field
    lemma_expect_lit_at(s, o6 + 1, lit_points());
    assert(ws_end(s, o6 + 1) == o6 + 1);
    assert(ws_end(s, o6 + 7) == o6 + 7);
    assert(ws_end(s, o6 + 8) == o6 + 8);
    assert(parse_field_head(s, o6 + 1, lit_points()) == Some(o6 + 8));
    if d.points.len() == 0 {
        assert(s[o7] == s.subrange(o7, o8 + 1)[0]);
        assert(s[o7] == ']');
        assert(ws_end(s, o7) == o7);
    } else {
        lemma_render_point_head(d.points[0]);
        assert(s[o7] == s.subrange(o7, o8 + 1)[0]);
        assert(s[o7] == '(');
        assert(ws_end(s, o7) == o7);
    }
    lemma_parse_points_at(s, o7, d.points);
    // closing parenthesis and end of text
    assert(ws_end(s, o8 + 1) == o8 + 1);
    assert(skip_opt_comma(s, o8 + 1) == o8 + 1);
    assert(ws_end(s, o8 + 2) == o8 + 2);
}


/// The round-trip law for any document a program can hold: rendering it and
/// parsing the text back yields a document equal in every field — name,
/// image reference, description, and every point's coordinates and
/// description, in their stored order.
pub proof fn lemma_render_region_round_trip(d: RegionData)
    ensures
        parse_doc(spec_render_doc(d@)) == Some(d@),
{
    lemma_doc_storable(d);
    lemma_parse_inverts_render(d@);
}

} // verus!
