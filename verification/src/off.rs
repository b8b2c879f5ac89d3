//! The OFF mesh format: a line-based, whitespace-delimited text format
//! holding a header, a count line, vertex coordinate lines, and polygonal
//! face lines that are fan-triangulated around their first vertex.
//!
//! Every stage carries an exact contract over the byte sequences: the
//! line and token splits, the numeric token parsers, and the importer
//! itself, which accepts precisely the well-shaped documents and appends
//! precisely their vertices and fan triangles, in file order.

use vstd::prelude::*;
use crate::fixed::{SCALE, LIM, tdiv};
use crate::vector::Vector3;
use crate::mesh::{Mesh, Vertex, Face, mesh_wf};

verus! {

/// A decimal digit byte.
pub open spec fn is_digit(b: u8) -> bool {
    48 <= b <= 57
}

/// Every byte is a decimal digit.
pub open spec fn all_digits(s: Seq<u8>) -> bool {
    forall|i: int| 0 <= i < s.len() ==> is_digit(#[trigger] s[i])
}

/// The value of a digit string, most significant first.
pub open spec fn dec_val(s: Seq<u8>) -> int
    decreases s.len(),
{
    if s.len() == 0 {
        0
    } else {
        dec_val(s.drop_last()) * 10 + (s.last() - 48)
    }
}

/// The index of the first occurrence of a byte, or the length.
pub open spec fn find_byte(s: Seq<u8>, b: u8) -> int
    decreases s.len(),
{
    if s.len() == 0 {
        0
    } else if s[0] == b {
        0
    } else {
        1 + find_byte(s.skip(1), b)
    }
}

/// Powers of ten.
pub open spec fn pow10(k: nat) -> int
    decreases k,
{
    if k == 0 {
        1
    } else {
        10 * pow10((k - 1) as nat)
    }
}

/// What an unsigned integer token means: a nonempty digit string whose
/// value fits the machine, and nothing else.
pub open spec fn spec_parse_uint(s: Seq<u8>) -> Option<int> {
    if s.len() > 0 && all_digits(s) && dec_val(s) <= usize::MAX {
        Some(dec_val(s))
    } else {
        None
    }
}

/// The magnitude cap on the integer part of a coordinate token: parsed
/// coordinates stay within the saturation band.
pub const COORD_MAX: i64 = 0xfffffff;

/// What an unsigned coordinate token means: a nonempty digit string, an
/// optional dot and further digits; the value is the integer part scaled,
/// plus the first nine fraction digits rescaled and rounded toward zero.
/// An oversized integer part is rejected.
pub open spec fn spec_parse_coord_mag(s: Seq<u8>) -> Option<int> {
    let dot = find_byte(s, 46);
    let ip = s.take(dot);
    let fp = s.skip(dot + 1);
    if dot == s.len() {
        if s.len() > 0 && all_digits(s) && dec_val(s) <= COORD_MAX {
            Some(dec_val(s) * SCALE)
        } else {
            None
        }
    } else {
        if ip.len() > 0 && all_digits(ip) && dec_val(ip) <= COORD_MAX && all_digits(fp) {
            let k = if fp.len() > 9 { 9nat } else { fp.len() as nat };
            Some(dec_val(ip) * SCALE + tdiv(dec_val(fp.take(k as int)) * SCALE, pow10(k)))
        } else {
            None
        }
    }
}

/// What a coordinate token means: an optional leading minus before the
/// unsigned form.
pub open spec fn spec_parse_coord(s: Seq<u8>) -> Option<int> {
    if s.len() > 0 && s[0] == 45 {
        match spec_parse_coord_mag(s.skip(1)) {
            Some(v) => Some(-v),
            None => None,
        }
    } else {
        spec_parse_coord_mag(s)
    }
}

/// Digit string values are never negative.
proof fn lemma_dec_val_nonneg(s: Seq<u8>)
    requires
        all_digits(s),
    ensures
        dec_val(s) >= 0,
    decreases s.len(),
{
    if s.len() > 0 {
        assert(all_digits(s.drop_last()));
        lemma_dec_val_nonneg(s.drop_last());
        assert(dec_val(s.drop_last()) * 10 >= 0) by (nonlinear_arith)
            requires dec_val(s.drop_last()) >= 0;
        assert(is_digit(s.last()));
    }
}

/// A digit string is worth at least any of its prefixes.
proof fn lemma_dec_val_prefix_le(s: Seq<u8>, k: int)
    requires
        all_digits(s),
        0 <= k <= s.len(),
    ensures
        dec_val(s.take(k)) <= dec_val(s),
    decreases s.len() - k,
{
    if k < s.len() {
        lemma_dec_val_prefix_le(s, k + 1);
        let t = s.take(k + 1);
        assert(t.drop_last() =~= s.take(k));
        assert(all_digits(s.take(k)));
        lemma_dec_val_nonneg(s.take(k));
        assert(is_digit(t.last()));
        assert(dec_val(t) == dec_val(s.take(k)) * 10 + (t.last() - 48));
        assert(dec_val(s.take(k)) * 10 >= dec_val(s.take(k))) by (nonlinear_arith)
            requires dec_val(s.take(k)) >= 0;
    } else {
        assert(s.take(k) =~= s);
    }
}

/// Locates the first occurrence from what a scan saw: no match below `i`,
/// a match or the end at `i`.
proof fn lemma_find_byte_at(s: Seq<u8>, b: u8, i: int)
    requires
        0 <= i <= s.len(),
        forall|j: int| 0 <= j < i ==> s[j] != b,
        i == s.len() || s[i] == b,
    ensures
        find_byte(s, b) == i,
    decreases i,
{
    if s.len() == 0 {
    } else if i == 0 {
    } else {
        assert(s[0] != b);
        lemma_find_byte_at(s.skip(1), b, i - 1);
        assert forall|j: int| 0 <= j < i - 1 implies s.skip(1)[j] != b by {
            assert(s.skip(1)[j] == s[j + 1]);
        }
    }
}

/// Parses an unsigned integer token, exactly as `spec_parse_uint` says.
pub fn parse_uint(tok: &Vec<u8>) -> (r: Option<usize>)
    ensures
        r matches Some(v) ==> spec_parse_uint(tok@) == Some(v as int),
        r is None ==> spec_parse_uint(tok@) is None,
{
    if tok.len() == 0 {
        return None;
    }
    let mut acc: usize = 0;
    let mut i: usize = 0;
    while i < tok.len()
        invariant
            0 < tok@.len(),
            i <= tok@.len(),
            all_digits(tok@.take(i as int)),
            acc as int == dec_val(tok@.take(i as int)),
        decreases tok@.len() - i,
    {
        let b = tok[i];
        if b < 48 || b > 57 {
            proof {
                assert(!is_digit(tok@[i as int]));
            }
            return None;
        }
        let d = (b - 48) as usize;
        let lim = (usize::MAX - d) / 10;
        proof {
            let m = (usize::MAX - d) as int;
            crate::fixed::lemma_tdiv_mul_bracket(m, 10);
            assert(tdiv(m, 10) == m / 10);
            assert(is_digit(tok@[i as int]));
            assert(tok@.take(i as int + 1).drop_last() =~= tok@.take(i as int));
            assert(all_digits(tok@.take(i as int + 1)));
            assert(dec_val(tok@.take(i as int + 1)) == acc * 10 + d);
        }
        if acc > lim {
            proof {
                let m = (usize::MAX - d) as int;
                let q = m / 10;
                assert(acc * 10 >= (q + 1) * 10) by (nonlinear_arith)
                    requires acc >= q + 1;
                assert(dec_val(tok@.take(i as int + 1)) > usize::MAX);
                if all_digits(tok@) {
                    lemma_dec_val_prefix_le(tok@, i as int + 1);
                }
            }
            return None;
        }
        proof {
            let m = (usize::MAX - d) as int;
            let q = m / 10;
            assert(acc * 10 <= q * 10) by (nonlinear_arith)
                requires acc <= q;
            assert(acc * 10 + d <= usize::MAX);
        }
        acc = acc * 10 + d;
        i = i + 1;
    }
    proof {
        assert(tok@.take(tok@.len() as int) =~= tok@);
    }
    Some(acc)
}

/// A digit string of length `k` is worth less than the `k`-th power of ten.
proof fn lemma_dec_val_lt_pow10(s: Seq<u8>)
    requires
        all_digits(s),
    ensures
        dec_val(s) < pow10(s.len()),
    decreases s.len(),
{
    if s.len() > 0 {
        assert(all_digits(s.drop_last()));
        lemma_dec_val_lt_pow10(s.drop_last());
        let v = dec_val(s.drop_last());
        let p = pow10((s.len() - 1) as nat);
        assert(v * 10 + 9 < p * 10) by (nonlinear_arith)
            requires v < p;
        assert(is_digit(s.last()));
    }
}

/// Powers of ten, executably, for fraction rescaling.
fn pow10_exec(k: usize) -> (r: i64)
    requires
        k <= 9,
    ensures
        r as int == pow10(k as nat),
        1 <= r <= 1000000000,
{
    let mut r: i64 = 1;
    let mut i: usize = 0;
    while i < k
        invariant
            i <= k <= 9,
            r as int == pow10(i as nat),
            1 <= r <= 1000000000,
        decreases k - i,
    {
        proof {
            assert(pow10((i + 1) as nat) == 10 * pow10(i as nat));
            lemma_pow10_values();
        }
        r = r * 10;
        i = i + 1;
    }
    r
}

/// The first ten powers of ten, written out.
proof fn lemma_pow10_values()
    ensures
        pow10(0) == 1,
        pow10(1) == 10,
        pow10(2) == 100,
        pow10(3) == 1000,
        pow10(4) == 10000,
        pow10(5) == 100000,
        pow10(6) == 1000000,
        pow10(7) == 10000000,
        pow10(8) == 100000000,
        pow10(9) == 1000000000,
{
    assert(pow10(1) == 10 * pow10(0));
    assert(pow10(2) == 10 * pow10(1));
    assert(pow10(3) == 10 * pow10(2));
    assert(pow10(4) == 10 * pow10(3));
    assert(pow10(5) == 10 * pow10(4));
    assert(pow10(6) == 10 * pow10(5));
    assert(pow10(7) == 10 * pow10(6));
    assert(pow10(8) == 10 * pow10(7));
    assert(pow10(9) == 10 * pow10(8));
}

/// Parses a signed fixed-point coordinate token, exactly as
/// `spec_parse_coord` says; the result lies in the saturation band.
pub fn parse_coord(tok: &Vec<u8>) -> (r: Option<i64>)
    ensures
        r matches Some(v) ==> spec_parse_coord(tok@) == Some(v as int)
            && -(LIM as int) <= v <= LIM as int,
        r is None ==> spec_parse_coord(tok@) is None,
{
    if tok.len() == 0 {
        return None;
    }
    let neg = tok[0] == 45;
    let start: usize = if neg { 1 } else { 0 };
    let ghost mag = tok@.skip(start as int);
    let mut i: usize = start;
    let mut ip: i64 = 0;
    while i < tok.len() && tok[i] != 46
        invariant
            0 < tok@.len(),
            neg == (tok@[0] == 45),
            start == (if neg { 1int } else { 0int }),
            start <= i <= tok@.len(),
            start <= 1,
            mag == tok@.skip(start as int),
            all_digits(mag.take(i - start)),
            forall|j: int| 0 <= j < i - start ==> mag[j] != 46,
            ip as int == dec_val(mag.take(i - start)),
            0 <= ip <= COORD_MAX,
        decreases tok@.len() - i,
    {
        let b = tok[i];
        proof {
            assert(mag[i - start] == tok@[i as int]);
            assert(mag.take(i - start + 1).drop_last() =~= mag.take(i - start));
        }
        if b < 48 || b > 57 {
            proof {
                lemma_find_byte_bounds(mag, 46);
                let dot = find_byte(mag, 46);
                assert(mag[i - start] != 46);
                if dot < mag.len() {
                    assert(dot > i - start);
                    assert(!is_digit(mag.take(dot)[i - start]));
                } else {
                    assert(!is_digit(mag[i - start]));
                }
                assert(spec_parse_coord_mag(mag) is None);
                if start == 0 { lemma_skip0(tok@, 0); }
            }
            return None;
        }
        let d = (b - 48) as i64;
        if ip > (COORD_MAX - d) / 10 {
            proof {
                let m = (COORD_MAX - d) as int;
                crate::fixed::lemma_tdiv_mul_bracket(m, 10);
                assert(tdiv(m, 10) == m / 10);
                let q = m / 10;
                assert(ip * 10 >= (q + 1) * 10) by (nonlinear_arith)
                    requires ip >= q + 1;
                assert(dec_val(mag.take(i - start + 1)) > COORD_MAX);
                lemma_coord_overflow_none(mag, i - start + 1);
                if start == 0 { lemma_skip0(tok@, 0); }
            }
            return None;
        }
        proof {
            let m = (COORD_MAX - d) as int;
            crate::fixed::lemma_tdiv_mul_bracket(m, 10);
            assert(tdiv(m, 10) == m / 10);
            let q = m / 10;
            assert(ip * 10 <= q * 10) by (nonlinear_arith)
                requires ip <= q;
        }
        ip = ip * 10 + d;
        i = i + 1;
    }
    if i == start {
        // No integer digit before the end or the dot.
        proof {
            if i < tok@.len() {
                lemma_find_byte_at(mag, 46, 0);
                assert(mag.take(0).len() == 0);
            } else {
                lemma_find_byte_at(mag, 46, mag.len() as int);
                assert(mag.take(mag.len() as int) =~= mag);
            }
            assert(spec_parse_coord_mag(mag) is None);
            if start == 0 { lemma_skip0(tok@, 0); }
        }
        return None;
    }
    if i == tok.len() {
        // Digits to the end: a whole number of units.
        proof {
            lemma_find_byte_at(mag, 46, mag.len() as int);
            assert(mag.take(mag.len() as int) =~= mag);
            assert(0 <= ip * SCALE <= LIM as int) by (nonlinear_arith)
                requires 0 <= ip <= 0xfffffff;
            if start == 0 { lemma_skip0(tok@, 0); }
        }
        let v = ip * SCALE;
        if neg {
            return Some(-v);
        }
        return Some(v);
    }
    // A dot: scan the fraction, accumulating its first nine digits.
    let ghost dotm = i - start;
    proof {
        lemma_find_byte_at(mag, 46, i - start);
    }
    let ghost fp = mag.skip(dotm + 1);
    let mut j: usize = i + 1;
    let mut facc: i64 = 0;
    let mut k: usize = 0;
    while j < tok.len()
        invariant
            0 < tok@.len(),
            neg == (tok@[0] == 45),
            start == (if neg { 1int } else { 0int }),
            start <= 1,
            start < i < j <= tok@.len(),
            mag == tok@.skip(start as int),
            fp == mag.skip(dotm + 1),
            dotm == i - start,
            find_byte(mag, 46) == dotm,
            all_digits(mag.take(dotm)),
            ip as int == dec_val(mag.take(dotm)),
            0 <= ip <= COORD_MAX,
            neg == (tok@[0] == 45),
            k <= 9,
            k as int == (if j - i - 1 > 9 { 9int } else { j - i - 1 }),
            all_digits(fp.take(j - i - 1)),
            facc as int == dec_val(fp.take(k as int)),
            0 <= facc < 1000000000,
        decreases tok@.len() - j,
    {
        let b = tok[j];
        proof {
            assert(fp[j - i - 1] == tok@[j as int]);
            assert(fp.take(j - i - 1 + 1).drop_last() =~= fp.take(j - i - 1));
        }
        if b < 48 || b > 57 {
            proof {
                assert(!is_digit(fp[j - i - 1]));
                assert(spec_parse_coord_mag(mag) is None);
                if start == 0 { lemma_skip0(tok@, 0); }
            }
            return None;
        }
        if k < 9 {
            proof {
                assert(fp.take(k as int + 1).drop_last() =~= fp.take(k as int));
                assert(all_digits(fp.take(k as int)));
                lemma_dec_val_lt_pow10(fp.take(k as int));
                lemma_pow10_values();
                let d0 = (b - 48) as int;
                assert(facc * 10 + d0 < 1000000000) by (nonlinear_arith)
                    requires facc < 100000000, d0 <= 9, facc >= 0;
                assert(facc * 10 >= 0) by (nonlinear_arith)
                    requires facc >= 0;
            }
            facc = facc * 10 + ((b - 48) as i64);
            k = k + 1;
        }
        j = j + 1;
    }
    let p10 = pow10_exec(k);
    proof {
        assert(fp.take(fp.len() as int) =~= fp);
        assert(all_digits(fp));
        lemma_dec_val_lt_pow10(fp.take(k as int));
        assert(fp.take(k as int).len() == k as int);
        assert(0 <= facc * SCALE <= 1000000000 * 65536) by (nonlinear_arith)
            requires 0 <= facc < 1000000000;
        assert(facc < p10);
        assert(facc * SCALE <= SCALE * p10) by (nonlinear_arith)
            requires facc < p10, facc >= 0, p10 >= 1;
        crate::fixed::lemma_tdiv_bound(facc as int * SCALE, p10 as int, SCALE as int);
        assert(0 <= ip * SCALE <= 0xfffffff * 65536) by (nonlinear_arith)
            requires 0 <= ip <= 0xfffffff;
    }
    let fv = (facc * SCALE) / p10;
    let v = ip * SCALE + fv;
    proof {
        assert(k as int == (if fp.len() > 9 { 9int } else { fp.len() as int }));
        assert(mag.take(dotm) == mag.take(find_byte(mag, 46)));
        if start == 0 { lemma_skip0(tok@, 0); }
    }
    if neg {
        Some(-v)
    } else {
        Some(v)
    }
}

/// Skipping nothing changes nothing.
proof fn lemma_skip0(s: Seq<u8>, n: int)
    requires
        n == 0,
    ensures
        s.skip(n) == s,
{
    assert(s.skip(0) =~= s);
}

/// An overlong integer part makes the whole coordinate token unparseable.
proof fn lemma_coord_overflow_none(mag: Seq<u8>, upto: int)
    requires
        0 < upto <= mag.len(),
        all_digits(mag.take(upto)),
        forall|j: int| 0 <= j < upto ==> mag[j] != 46,
        dec_val(mag.take(upto)) > COORD_MAX,
    ensures
        spec_parse_coord_mag(mag) is None,
{
    let dot = find_byte(mag, 46);
    lemma_find_byte_bounds(mag, 46);
    if dot == mag.len() {
        if all_digits(mag) {
            lemma_dec_val_prefix_le(mag, upto);
        }
    } else {
        assert(mag[dot] == 46);
        assert(dot >= upto);
        let ip = mag.take(dot);
        if all_digits(ip) {
            assert(ip.take(upto) =~= mag.take(upto));
            lemma_dec_val_prefix_le(ip, upto);
        }
    }
}

/// The first occurrence lies within the string, and marks the byte.
proof fn lemma_find_byte_bounds(s: Seq<u8>, b: u8)
    ensures
        0 <= find_byte(s, b) <= s.len(),
        find_byte(s, b) < s.len() ==> s[find_byte(s, b)] == b,
        forall|j: int| 0 <= j < find_byte(s, b) ==> s[j] != b,
    decreases s.len(),
{
    if s.len() > 0 && s[0] != b {
        lemma_find_byte_bounds(s.skip(1), b);
        let f = find_byte(s.skip(1), b);
        assert forall|j: int| 0 <= j < 1 + f implies s[j] != b by {
            if j > 0 {
                assert(s.skip(1)[j - 1] == s[j]);
            }
        }
        if 1 + f < s.len() {
            assert(s.skip(1)[f] == s[1 + f]);
        }
    }
}

/// A trailing carriage return, if any, stripped from a line.
pub open spec fn strip_cr(s: Seq<u8>) -> Seq<u8> {
    if s.len() > 0 && s.last() == 13 {
        s.drop_last()
    } else {
        s
    }
}

/// Whether a stripped line survives filtering: nonempty and not a comment.
pub open spec fn keep_line(s: Seq<u8>) -> bool {
    s.len() > 0 && s[0] != 35
}

/// The document's lines: the byte stream split at newline bytes, a
/// trailing carriage return stripped from each piece, blank lines and
/// comment lines dropped.
pub open spec fn spec_lines(data: Seq<u8>) -> Seq<Seq<u8>>
    decreases data.len(),
{
    let i = find_byte(data, 10);
    if 0 <= i < data.len() {
        let first = strip_cr(data.take(i));
        let rest = spec_lines(data.skip(i + 1));
        if keep_line(first) {
            seq![first] + rest
        } else {
            rest
        }
    } else {
        if keep_line(strip_cr(data)) {
            seq![strip_cr(data)]
        } else {
            Seq::empty()
        }
    }
}

/// A line's tokens: the maximal runs between space bytes, empties kept
/// (they parse to nothing downstream).
pub open spec fn spec_tokens(line: Seq<u8>) -> Seq<Seq<u8>>
    decreases line.len(),
{
    let i = find_byte(line, 32);
    if 0 <= i < line.len() {
        seq![line.take(i)] + spec_tokens(line.skip(i + 1))
    } else {
        seq![line]
    }
}

/// The values of the parseable unsigned-integer tokens, in order;
/// unparseable tokens fall away.
pub open spec fn parsed_uints(toks: Seq<Seq<u8>>) -> Seq<int>
    decreases toks.len(),
{
    if toks.len() == 0 {
        Seq::empty()
    } else {
        let init = parsed_uints(toks.drop_last());
        match spec_parse_uint(toks.last()) {
            Some(v) => init.push(v),
            None => init,
        }
    }
}

/// The values of the parseable coordinate tokens, in order; unparseable
/// tokens fall away.
pub open spec fn parsed_coords(toks: Seq<Seq<u8>>) -> Seq<int>
    decreases toks.len(),
{
    if toks.len() == 0 {
        Seq::empty()
    } else {
        let init = parsed_coords(toks.drop_last());
        match spec_parse_coord(toks.last()) {
            Some(v) => init.push(v),
            None => init,
        }
    }
}

/// The coordinate values a vertex line carries.
pub open spec fn line_coords(line: Seq<u8>) -> Seq<int> {
    parsed_coords(spec_tokens(line))
}

/// The unsigned integer values a count or polygon line carries.
pub open spec fn line_uints(line: Seq<u8>) -> Seq<int> {
    parsed_uints(spec_tokens(line))
}

/// A vertex line is well-shaped when exactly three or seven of its tokens
/// parse as coordinates.
pub open spec fn vertex_line_ok(line: Seq<u8>) -> bool {
    line_coords(line).len() == 3 || line_coords(line).len() == 7
}

/// The vertex a well-shaped vertex line holds: its first three
/// coordinates, with no color.
pub open spec fn vertex_of_line(line: Seq<u8>) -> Vertex {
    let c = line_coords(line);
    Vertex { pt: Vector3 { x: c[0] as i64, y: c[1] as i64, z: c[2] as i64 }, color: None }
}

/// A polygon line is well-shaped against a vertex count: its first integer
/// is an arity of at least three, at least that many indices follow, and
/// every index names an existing vertex.  Trailing tokens (colors) are
/// ignored.
pub open spec fn face_line_ok(line: Seq<u8>, nverts: int) -> bool {
    let v = line_uints(line);
    &&& v.len() > 0
    &&& v[0] >= 3
    &&& v.len() >= v[0] + 1
    &&& forall|t: int| 1 <= t <= v[0] ==> 0 <= #[trigger] v[t] < nverts
}

/// The fan triangulation of a polygon line around its first vertex.
pub open spec fn fan_of_line(line: Seq<u8>) -> Seq<Face> {
    let v = line_uints(line);
    Seq::new((v[0] - 2) as nat, |f: int| Face {
        a: v[1] as usize,
        b: v[f + 2] as usize,
        c: v[f + 3] as usize,
        color: None,
    })
}

/// The vertices a well-shaped document appends: one per vertex line, in
/// file order.
pub open spec fn doc_vertices(l: Seq<Seq<u8>>, nv: int) -> Seq<Vertex> {
    Seq::new(nv as nat, |i: int| vertex_of_line(l[2 + i]))
}

/// The faces the first `k` polygon lines of a document append, in file
/// order.
pub open spec fn doc_faces(l: Seq<Seq<u8>>, nv: int, k: int) -> Seq<Face>
    decreases k,
{
    if k <= 0 {
        Seq::empty()
    } else {
        doc_faces(l, nv, k - 1) + fan_of_line(l[2 + nv + k - 1])
    }
}

/// A well-shaped document over a mesh already holding `base` vertices: the
/// `OFF` header line, a count line with exactly three integers, one
/// well-shaped coordinate line per declared vertex, and one well-shaped
/// polygon line per declared face, each index naming one of the old or new
/// vertices.  Lines beyond the declared counts are ignored.
pub open spec fn doc_ok(data: Seq<u8>, base: int) -> bool {
    let l = spec_lines(data);
    &&& l.len() >= 2
    &&& l[0].len() == 3 && l[0][0] == 79 && l[0][1] == 70 && l[0][2] == 70
    &&& line_uints(l[1]).len() == 3
    &&& ({
        let nv = line_uints(l[1])[0];
        let nf = line_uints(l[1])[1];
        &&& l.len() >= 2 + nv + nf
        &&& (forall|i: int| 0 <= i < nv ==> vertex_line_ok(#[trigger] l[2 + i]))
        &&& (forall|i: int| 0 <= i < nf ==> face_line_ok(#[trigger] l[2 + nv + i], base + nv))
    })
}

/// Splits the input into lines, exactly as `spec_lines` says.
fn split_lines(data: &Vec<u8>) -> (r: Vec<Vec<u8>>)
    ensures
        r@.len() == spec_lines(data@).len(),
        forall|j: int| 0 <= j < r@.len() ==> #[trigger] r@[j]@ == spec_lines(data@)[j],
{
    let mut lines: Vec<Vec<u8>> = Vec::new();
    let ghost mut done: Seq<Seq<u8>> = Seq::empty();
    let mut cur: Vec<u8> = Vec::new();
    let ghost mut p: int = 0;
    let mut i: usize = 0;
    proof {
        assert(data@.skip(0) =~= data@);
        assert(done + spec_lines(data@.skip(0)) =~~= spec_lines(data@));
    }
    while i < data.len()
        invariant
            0 <= p <= i as int <= data@.len(),
            cur@ == data@.subrange(p, i as int),
            forall|t: int| p <= t < i as int ==> data@[t] != 10,
            lines@.len() == done.len(),
            forall|j: int| 0 <= j < done.len() ==> #[trigger] lines@[j]@ == done[j],
            done + spec_lines(data@.skip(p)) == spec_lines(data@),
        decreases data@.len() - i,
    {
        let b = data[i];
        if b == 10 {
            proof {
                let rem = data@.skip(p);
                assert forall|j: int| 0 <= j < i as int - p implies rem[j] != 10 by {
                    assert(rem[j] == data@[j + p]);
                }
                assert(rem[i as int - p] == data@[i as int]);
                lemma_find_byte_at(rem, 10, i as int - p);
                assert(rem.take(i as int - p) =~= cur@);
                assert(rem.skip(i as int - p + 1) =~= data@.skip(i as int + 1));
            }
            let mut seg = cur;
            cur = Vec::new();
            if seg.len() > 0 && seg[seg.len() - 1] == 13 {
                seg.pop();
            }
            proof {
                assert(seg@ == strip_cr(data@.skip(p).take(i as int - p)));
            }
            let ghost first = strip_cr(data@.skip(p).take(i as int - p));
            let ghost rest = spec_lines(data@.skip(i as int + 1));
            if seg.len() > 0 && seg[0] != 35 {
                lines.push(seg);
                proof {
                    assert(keep_line(first));
                    assert(done + (seq![first] + rest) =~~= done.push(first) + rest);
                    done = done.push(first);
                }
            } else {
                proof {
                    assert(!keep_line(first));
                }
            }
            proof {
                p = i as int + 1;
                assert(cur@ =~= data@.subrange(p, i as int + 1));
            }
        } else {
            cur.push(b);
            proof {
                assert(cur@ =~= data@.subrange(p, i as int + 1));
            }
        }
        i = i + 1;
    }
    proof {
        let rem = data@.skip(p);
        assert forall|j: int| 0 <= j < rem.len() implies rem[j] != 10 by {
            assert(rem[j] == data@[j + p]);
        }
        lemma_find_byte_at(rem, 10, rem.len() as int);
        assert(rem =~= cur@);
    }
    let ghost first = strip_cr(data@.skip(p));
    let mut seg = cur;
    if seg.len() > 0 && seg[seg.len() - 1] == 13 {
        seg.pop();
    }
    proof {
        assert(seg@ == first);
    }
    if seg.len() > 0 && seg[0] != 35 {
        lines.push(seg);
        proof {
            assert(keep_line(first));
            assert(done + seq![first] =~~= done.push(first));
            done = done.push(first);
        }
    } else {
        proof {
            assert(!keep_line(first));
            assert(done + Seq::<Seq<u8>>::empty() =~~= done);
        }
    }
    proof {
        assert(done =~~= spec_lines(data@));
    }
    lines
}

/// Splits a line into its space-delimited tokens, exactly as
/// `spec_tokens` says.
fn split_tokens(line: &Vec<u8>) -> (r: Vec<Vec<u8>>)
    ensures
        r@.len() == spec_tokens(line@).len(),
        forall|j: int| 0 <= j < r@.len() ==> #[trigger] r@[j]@ == spec_tokens(line@)[j],
{
    let mut toks: Vec<Vec<u8>> = Vec::new();
    let ghost mut done: Seq<Seq<u8>> = Seq::empty();
    let mut cur: Vec<u8> = Vec::new();
    let ghost mut p: int = 0;
    let mut i: usize = 0;
    proof {
        assert(line@.skip(0) =~= line@);
        assert(done + spec_tokens(line@.skip(0)) =~~= spec_tokens(line@));
    }
    while i < line.len()
        invariant
            0 <= p <= i as int <= line@.len(),
            cur@ == line@.subrange(p, i as int),
            forall|t: int| p <= t < i as int ==> line@[t] != 32,
            toks@.len() == done.len(),
            forall|j: int| 0 <= j < done.len() ==> #[trigger] toks@[j]@ == done[j],
            done + spec_tokens(line@.skip(p)) == spec_tokens(line@),
        decreases line@.len() - i,
    {
        let b = line[i];
        if b == 32 {
            proof {
                let rem = line@.skip(p);
                assert forall|j: int| 0 <= j < i as int - p implies rem[j] != 32 by {
                    assert(rem[j] == line@[j + p]);
                }
                assert(rem[i as int - p] == line@[i as int]);
                lemma_find_byte_at(rem, 32, i as int - p);
                assert(rem.take(i as int - p) =~= cur@);
                assert(rem.skip(i as int - p + 1) =~= line@.skip(i as int + 1));
                let rest = spec_tokens(line@.skip(i as int + 1));
                assert(done + (seq![cur@] + rest) =~~= done.push(cur@) + rest);
                done = done.push(cur@);
            }
            toks.push(cur);
            cur = Vec::new();
            proof {
                p = i as int + 1;
                assert(cur@ =~= line@.subrange(p, i as int + 1));
            }
        } else {
            cur.push(b);
            proof {
                assert(cur@ =~= line@.subrange(p, i as int + 1));
            }
        }
        i = i + 1;
    }
    proof {
        let rem = line@.skip(p);
        assert forall|j: int| 0 <= j < rem.len() implies rem[j] != 32 by {
            assert(rem[j] == line@[j + p]);
        }
        lemma_find_byte_at(rem, 32, rem.len() as int);
        assert(rem =~= cur@);
        assert(done + seq![cur@] =~~= done.push(cur@));
        done = done.push(cur@);
        assert(done =~~= spec_tokens(line@));
    }
    toks.push(cur);
    toks
}

/// The parseable coordinates of a line, exactly `line_coords`, each inside
/// the saturation band.
fn parse_coords(line: &Vec<u8>) -> (r: Vec<i64>)
    ensures
        r@.len() == line_coords(line@).len(),
        forall|j: int| 0 <= j < r@.len() ==> #[trigger] r@[j] as int == line_coords(line@)[j],
        forall|j: int| 0 <= j < r@.len() ==> -(LIM as int) <= #[trigger] r@[j] <= LIM as int,
{
    let toks = split_tokens(line);
    let ghost st = spec_tokens(line@);
    let mut coords: Vec<i64> = Vec::new();
    let mut i: usize = 0;
    proof {
        assert(st.take(0) =~= Seq::<Seq<u8>>::empty());
    }
    while i < toks.len()
        invariant
            st == spec_tokens(line@),
            toks@.len() == st.len(),
            forall|j: int| 0 <= j < toks@.len() ==> #[trigger] toks@[j]@ == st[j],
            i <= toks@.len(),
            coords@.len() == parsed_coords(st.take(i as int)).len(),
            forall|j: int|
                0 <= j < coords@.len() ==> #[trigger] coords@[j] as int == parsed_coords(
                    st.take(i as int))[j],
            forall|j: int|
                0 <= j < coords@.len() ==> -(LIM as int) <= #[trigger] coords@[j] <= LIM as int,
        decreases toks@.len() - i,
    {
        proof {
            assert(st.take(i as int + 1).drop_last() =~= st.take(i as int));
            assert(st.take(i as int + 1).last() == st[i as int]);
        }
        match parse_coord(&toks[i]) {
            Some(v) => coords.push(v),
            None => (),
        }
        i = i + 1;
    }
    proof {
        assert(st.take(st.len() as int) =~= st);
    }
    coords
}

/// The parseable unsigned integers of a line, exactly `line_uints`.
fn parse_uints(line: &Vec<u8>) -> (r: Vec<usize>)
    ensures
        r@.len() == line_uints(line@).len(),
        forall|j: int| 0 <= j < r@.len() ==> #[trigger] r@[j] as int == line_uints(line@)[j],
{
    let toks = split_tokens(line);
    let ghost st = spec_tokens(line@);
    let mut vals: Vec<usize> = Vec::new();
    let mut i: usize = 0;
    proof {
        assert(st.take(0) =~= Seq::<Seq<u8>>::empty());
    }
    while i < toks.len()
        invariant
            st == spec_tokens(line@),
            toks@.len() == st.len(),
            forall|j: int| 0 <= j < toks@.len() ==> #[trigger] toks@[j]@ == st[j],
            i <= toks@.len(),
            vals@.len() == parsed_uints(st.take(i as int)).len(),
            forall|j: int|
                0 <= j < vals@.len() ==> #[trigger] vals@[j] as int == parsed_uints(
                    st.take(i as int))[j],
        decreases toks@.len() - i,
    {
        proof {
            assert(st.take(i as int + 1).drop_last() =~= st.take(i as int));
            assert(st.take(i as int + 1).last() == st[i as int]);
        }
        match parse_uint(&toks[i]) {
            Some(v) => vals.push(v),
            None => (),
        }
        i = i + 1;
    }
    proof {
        assert(st.take(st.len() as int) =~= st);
    }
    vals
}

/// Imports an OFF document into a mesh: the `OFF` header line, a count
/// line, one coordinate line per vertex, and one polygon line per face,
/// fan-triangulated around its first vertex.
///
/// Returns `Some(())` exactly when the document is well-shaped (`doc_ok`),
/// and then appends precisely the document's vertices and fan triangles,
/// in file order.  On a malformed document it returns `None`, leaving
/// whatever was already appended; in every outcome the mesh stays
/// well-formed, its pose is untouched, and its buffers only grow.
pub fn import(data: &Vec<u8>, mesh: &mut Mesh) -> (r: Option<()>)
    requires
        mesh_wf(*old(mesh)),
    ensures
        mesh_wf(*final(mesh)),
        final(mesh).rot_x == old(mesh).rot_x,
        final(mesh).rot_y == old(mesh).rot_y,
        final(mesh).rot_z == old(mesh).rot_z,
        final(mesh).rot_o == old(mesh).rot_o,
        final(mesh).translation == old(mesh).translation,
        old(mesh).vertices@.len() <= final(mesh).vertices@.len(),
        forall|i: int|
            0 <= i < old(mesh).vertices@.len()
                ==> #[trigger] final(mesh).vertices@[i] == old(mesh).vertices@[i],
        old(mesh).faces@.len() <= final(mesh).faces@.len(),
        forall|i: int|
            0 <= i < old(mesh).faces@.len()
                ==> #[trigger] final(mesh).faces@[i] == old(mesh).faces@[i],
        (r is Some) == doc_ok(data@, old(mesh).vertices@.len() as int),
        r is Some ==> ({
            let l = spec_lines(data@);
            let nv = line_uints(l[1])[0];
            let nf = line_uints(l[1])[1];
            &&& final(mesh).vertices@ == old(mesh).vertices@ + doc_vertices(l, nv)
            &&& final(mesh).faces@ == old(mesh).faces@ + doc_faces(l, nv, nf)
        }),
{
    let ghost l = spec_lines(data@);
    let ghost base = old(mesh).vertices@.len() as int;
    let lines = split_lines(data);
    if lines.len() == 0 {
        return None;
    }
    let hdr = &lines[0];
    if !(hdr.len() == 3 && hdr[0] == 79 && hdr[1] == 70 && hdr[2] == 70) {
        return None;
    }
    if lines.len() < 2 {
        return None;
    }
    let sizes = parse_uints(&lines[1]);
    if sizes.len() != 3 {
        return None;
    }
    let nr_vertices = sizes[0];
    let nr_faces = sizes[1];
    let ghost nv = line_uints(l[1])[0];
    let ghost nf = line_uints(l[1])[1];
    proof {
        assert(nv == nr_vertices as int);
        assert(nf == nr_faces as int);
        assert(mesh.vertices@ =~= old(mesh).vertices@ + doc_vertices(l, 0));
    }
    let mut idx: usize = 2;
    let mut i: usize = 0;
    while i < nr_vertices
        invariant
            mesh_wf(*mesh),
            mesh.rot_x == old(mesh).rot_x,
            mesh.rot_y == old(mesh).rot_y,
            mesh.rot_z == old(mesh).rot_z,
            mesh.rot_o == old(mesh).rot_o,
            mesh.translation == old(mesh).translation,
            mesh.faces@ == old(mesh).faces@,
            l == spec_lines(data@),
            base == old(mesh).vertices@.len() as int,
            lines@.len() == l.len(),
            forall|j: int| 0 <= j < l.len() ==> #[trigger] lines@[j]@ == l[j],
            l.len() >= 2,
            l[0].len() == 3 && l[0][0] == 79 && l[0][1] == 70 && l[0][2] == 70,
            line_uints(l[1]).len() == 3,
            nv == line_uints(l[1])[0],
            nf == line_uints(l[1])[1],
            nv == nr_vertices as int,
            nf == nr_faces as int,
            i <= nr_vertices,
            idx as int == 2 + i as int,
            idx as int <= l.len(),
            forall|j: int| 0 <= j < i as int ==> vertex_line_ok(#[trigger] l[2 + j]),
            mesh.vertices@ == old(mesh).vertices@ + doc_vertices(l, i as int),
        decreases nr_vertices - i,
    {
        if idx >= lines.len() {
            proof {
                assert(2 + nv + nf > l.len());
                assert(!doc_ok(data@, base));
            }
            return None;
        }
        let coords = parse_coords(&lines[idx]);
        proof {
            assert(lines@[idx as int]@ == l[2 + i as int]);
        }
        idx = idx + 1;
        if !(coords.len() == 3 || coords.len() == 7) {
            proof {
                assert(!vertex_line_ok(l[2 + i as int]));
                assert(!doc_ok(data@, base));
            }
            return None;
        }
        let pt = Vector3 { x: coords[0], y: coords[1], z: coords[2] };
        let v = Vertex { pt, color: None };
        proof {
            assert(v == vertex_of_line(l[2 + i as int]));
            assert(mesh.vertices@.push(v) =~= old(mesh).vertices@ + doc_vertices(
                l, i as int + 1));
        }
        mesh.vertices.push(v);
        i = i + 1;
    }
    let mut j: usize = 0;
    proof {
        assert(mesh.faces@ =~= old(mesh).faces@ + doc_faces(l, nv, 0));
    }
    while j < nr_faces
        invariant
            mesh_wf(*mesh),
            mesh.rot_x == old(mesh).rot_x,
            mesh.rot_y == old(mesh).rot_y,
            mesh.rot_z == old(mesh).rot_z,
            mesh.rot_o == old(mesh).rot_o,
            mesh.translation == old(mesh).translation,
            l == spec_lines(data@),
            base == old(mesh).vertices@.len() as int,
            lines@.len() == l.len(),
            forall|t: int| 0 <= t < l.len() ==> #[trigger] lines@[t]@ == l[t],
            l.len() >= 2,
            l[0].len() == 3 && l[0][0] == 79 && l[0][1] == 70 && l[0][2] == 70,
            line_uints(l[1]).len() == 3,
            nv == line_uints(l[1])[0],
            nf == line_uints(l[1])[1],
            nv == nr_vertices as int,
            nf == nr_faces as int,
            forall|t: int| 0 <= t < nv ==> vertex_line_ok(#[trigger] l[2 + t]),
            mesh.vertices@ == old(mesh).vertices@ + doc_vertices(l, nv),
            mesh.vertices@.len() == base + nv,
            j <= nr_faces,
            idx as int == 2 + nv + j as int,
            idx as int <= l.len(),
            forall|t: int| 0 <= t < j as int ==> face_line_ok(#[trigger] l[2 + nv + t],
                base + nv),
            mesh.faces@ == old(mesh).faces@ + doc_faces(l, nv, j as int),
        decreases nr_faces - j,
    {
        if idx >= lines.len() {
            proof {
                assert(2 + nv + nf > l.len());
                assert(!doc_ok(data@, base));
            }
            return None;
        }
        let verts = parse_uints(&lines[idx]);
        let ghost vs = line_uints(l[2 + nv + j as int]);
        proof {
            assert(lines@[idx as int]@ == l[2 + nv + j as int]);
        }
        idx = idx + 1;
        if verts.len() == 0 {
            proof {
                assert(!face_line_ok(l[2 + nv + j as int], base + nv));
                assert(!doc_ok(data@, base));
            }
            return None;
        }
        let nr_verts = verts[0];
        if nr_verts < 3 || verts.len() < 3 || verts.len() - 1 < nr_verts {
            proof {
                assert(vs[0] < 3 || vs.len() < vs[0] + 1);
                assert(!face_line_ok(l[2 + nv + j as int], base + nv));
                assert(!doc_ok(data@, base));
            }
            return None;
        }
        let ghost fan = fan_of_line(l[2 + nv + j as int]);
        proof {
            assert(fan.len() == nr_verts - 2);
            assert(mesh.faces@ =~= old(mesh).faces@ + doc_faces(l, nv, j as int)
                + fan.take(0));
        }
        let mut f: usize = 0;
        while f < nr_verts - 2
            invariant
                mesh_wf(*mesh),
                mesh.rot_x == old(mesh).rot_x,
                mesh.rot_y == old(mesh).rot_y,
                mesh.rot_z == old(mesh).rot_z,
                mesh.rot_o == old(mesh).rot_o,
                mesh.translation == old(mesh).translation,
                l == spec_lines(data@),
                base == old(mesh).vertices@.len() as int,
                nv == line_uints(l[1])[0],
                nf == line_uints(l[1])[1],
                line_uints(l[1]).len() == 3,
                (j as int) < nf,
                mesh.vertices@ == old(mesh).vertices@ + doc_vertices(l, nv),
                mesh.vertices@.len() == base + nv,
                vs == line_uints(l[2 + nv + j as int]),
                verts@.len() == vs.len(),
                forall|t: int| 0 <= t < verts@.len() ==> #[trigger] verts@[t] as int == vs[t],
                nr_verts as int == vs[0],
                nr_verts >= 3,
                verts@.len() >= nr_verts + 1,
                fan == fan_of_line(l[2 + nv + j as int]),
                fan.len() == nr_verts - 2,
                f <= nr_verts - 2,
                f > 0 ==> forall|t: int|
                    1 <= t <= f as int + 2 ==> 0 <= #[trigger] vs[t] < base + nv,
                mesh.faces@ == old(mesh).faces@ + doc_faces(l, nv, j as int)
                    + fan.take(f as int),
            decreases nr_verts - 2 - f,
        {
            let a = verts[1];
            let b = verts[f + 2];
            let c = verts[f + 3];
            if a >= mesh.vertices.len() || b >= mesh.vertices.len() || c >= mesh.vertices.len() {
                proof {
                    assert(vs[1] >= base + nv || vs[f as int + 2] >= base + nv
                        || vs[f as int + 3] >= base + nv);
                    assert(!face_line_ok(l[2 + nv + j as int], base + nv));
                    assert(!doc_ok(data@, base));
                }
                return None;
            }
            let face = Face { a, b, c, color: None };
            proof {
                assert(face == fan[f as int]);
                assert(mesh.faces@.push(face) =~= old(mesh).faces@ + doc_faces(
                    l, nv, j as int) + fan.take(f as int + 1));
            }
            mesh.faces.push(face);
            f = f + 1;
        }
        proof {
            assert(fan.take(fan.len() as int) =~= fan);
            assert forall|t: int| 1 <= t <= vs[0] implies 0 <= #[trigger] vs[t] < base + nv by {
            }
            assert(face_line_ok(l[2 + nv + j as int], base + nv));
            assert(mesh.faces@ =~= old(mesh).faces@ + doc_faces(l, nv, j as int + 1));
        }
        j = j + 1;
    }
    proof {
        assert(2 + nv + nf <= l.len());
        assert(doc_ok(data@, base));
    }
    Some(())
}

} // verus!
