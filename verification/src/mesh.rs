//! The mesh: a flat vertex list and a face list of vertex indices, loaded
//! once and shared read-only by the transform stage and the rasterizer.
use vstd::prelude::*;
use crate::fixed::{mag, tdiv};
use crate::geom::{P, in_bound};
use crate::{VERT_BOUND, SCALE};
use crate::fixed::tdiv64;

verus! {

/// An immutable mesh: vertices, and faces as ordered vertex-index lists.
/// Every index is already 0-based; every index is below the vertex count;
/// every vertex coordinate is within the representable range.
pub struct Mesh {
    pub vertices: Vec<P>,
    pub faces: Vec<Vec<usize>>,
}

impl Mesh {
    /// The mesh invariant the loader establishes.
    pub open spec fn wf(self) -> bool {
        &&& forall|i: int|
            0 <= i < self.vertices.len() ==> in_bound(
                #[trigger] self.vertices@[i],
                VERT_BOUND as int,
            )
        &&& forall|i: int, j: int|
            0 <= i < self.faces.len() && 0 <= j < self.faces@[i].len() ==> #[trigger] self.faces@[i]@[j]
                < self.vertices.len()
    }
}


/// A fatal load error: the file cannot be used and no partial mesh is
/// kept.
#[derive(Clone, Copy, PartialEq, Eq, Structural, Debug)]
pub enum LoadError {
    /// A vertex or face line holds a malformed or missing numeric token.
    BadNumber,
    /// A vertex coordinate lies outside the representable range.
    CoordOutOfRange,
    /// A face names a vertex index below one or beyond the vertex count.
    IndexOutOfRange,
}

/// A byte that separates tokens within a line.
pub open spec fn is_ws(c: u8) -> bool {
    c == 32 || c == 9 || c == 13
}

/// A decimal digit.
pub open spec fn is_digit(c: u8) -> bool {
    48 <= c <= 57
}

/// The index of the newline that ends the line starting at i, or the end
/// of the input.
pub open spec fn line_end(s: Seq<u8>, i: int) -> int
    decreases s.len() - i,
{
    if i < 0 || i >= s.len() {
        s.len() as int
    } else if s[i] == 10 {
        i
    } else {
        line_end(s, i + 1)
    }
}

/// The first index at or after j, before end, that holds a non-separator
/// byte.
pub open spec fn skip_ws(s: Seq<u8>, j: int, end: int) -> int
    decreases end - j,
{
    if j < 0 || j >= end {
        end
    } else if is_ws(s[j]) {
        skip_ws(s, j + 1, end)
    } else {
        j
    }
}

/// The first separator at or after j, before end: the end of the token
/// starting at j.
pub open spec fn token_end(s: Seq<u8>, j: int, end: int) -> int
    decreases end - j,
{
    if j < 0 || j >= end {
        end
    } else if is_ws(s[j]) {
        j
    } else {
        token_end(s, j + 1, end)
    }
}

/// The token end never runs backward, and a token that starts on a
/// non-separator byte is at least one byte long.
proof fn lemma_token_end_ge(s: Seq<u8>, j: int, e: int)
    requires
        j <= e,
    ensures
        j <= token_end(s, j, e) <= e,
    decreases e - j,
{
    if j < 0 || j >= e {
    } else if is_ws(s[j]) {
    } else {
        lemma_token_end_ge(s, j + 1, e);
    }
}

/// The first non-digit at or after j, before end.
pub open spec fn digits_end(s: Seq<u8>, j: int, end: int) -> int
    decreases end - j,
{
    if j < 0 || j >= end {
        end
    } else if is_digit(s[j]) {
        digits_end(s, j + 1, end)
    } else {
        j
    }
}

/// The value of the digit run [j, end), accumulated onto acc; None where
/// a non-digit stands in the run or the value leaves the 32-bit range.
pub open spec fn digits_val(s: Seq<u8>, j: int, end: int, acc: int) -> Option<int>
    decreases end - j,
{
    if j >= end {
        Some(acc)
    } else if !is_digit(s[j]) {
        None
    } else if acc * 10 + (s[j] - 48) > 0xFFFF_FFFF {
        None
    } else {
        digits_val(s, j + 1, end, acc * 10 + (s[j] - 48))
    }
}

/// The value of the fraction digits [j, end): only the first five digits
/// carry weight, the rest only have to be digits. Returns the value and
/// the number of weighted digits.
pub open spec fn frac_val(s: Seq<u8>, j: int, end: int, acc: int, k: int) -> Option<(int, int)>
    decreases end - j,
{
    if j >= end {
        Some((acc, k))
    } else if !is_digit(s[j]) {
        None
    } else if k < 5 {
        frac_val(s, j + 1, end, acc * 10 + (s[j] - 48), k + 1)
    } else {
        frac_val(s, j + 1, end, acc, k)
    }
}

/// Ten to the k-th, for the fraction scale.
pub open spec fn pow10(k: int) -> int
    decreases k,
{
    if k <= 0 {
        1
    } else {
        10 * pow10(k - 1)
    }
}

/// The fixed-point value of the numeric token [j, te): an optional sign,
/// then digits with an optional fraction, truncated to the fixed-point
/// resolution. None where the token is not such a number.
pub open spec fn number_val(s: Seq<u8>, j: int, te: int) -> Option<int> {
    let neg = j < te && s[j] == 45;
    let j1 = if j < te && (s[j] == 45 || s[j] == 43) {
        j + 1
    } else {
        j
    };
    let de = digits_end(s, j1, te);
    if de == te {
        if de == j1 {
            None
        } else {
            match digits_val(s, j1, de, 0) {
                Option::Some(ip) => Option::Some(
                    if neg {
                        -(ip * (crate::SCALE as int))
                    } else {
                        ip * (crate::SCALE as int)
                    },
                ),
                Option::None => Option::None,
            }
        }
    } else if s[de] == 46 {
        if de == j1 && de + 1 == te {
            None
        } else {
            match digits_val(s, j1, de, 0) {
                Option::Some(ip) => match frac_val(s, de + 1, te, 0, 0) {
                    Option::Some(fk) => {
                        let v = ip * (crate::SCALE as int) + tdiv(
                            fk.0 * (crate::SCALE as int),
                            pow10(fk.1),
                        );
                        Option::Some(
                            if neg {
                                -v
                            } else {
                                v
                            },
                        )
                    },
                    Option::None => Option::None,
                },
                Option::None => Option::None,
            }
        }
    } else {
        None
    }
}

/// The face index named by the token [j, te): leading digits, at least
/// one, optionally followed by a slash and anything, 1-based in the
/// file. None where the token is not such an index.
pub open spec fn index_val(s: Seq<u8>, j: int, te: int) -> Option<int> {
    let de = digits_end(s, j, te);
    if de == j {
        None
    } else if de < te && s[de] != 47 {
        None
    } else {
        digits_val(s, j, de, 0)
    }
}

/// The loader state folded over the input: the vertices and the faces
/// gathered so far, faces as 0-based index lists.
pub open spec fn parse_from(s: Seq<u8>, i: int, vs: Seq<P>, fs: Seq<Seq<usize>>) -> Result<
    (Seq<P>, Seq<Seq<usize>>),
    LoadError,
>
    decreases s.len() - i,
{
    if i < 0 || i >= s.len() {
        Ok((vs, fs))
    } else {
        let e = line_end(s, i);
        let t0 = skip_ws(s, i, e);
        let next = if e + 1 > s.len() {
            s.len() as int
        } else if e < i {
            i + 1
        } else {
            e + 1
        };
        if t0 >= e {
            parse_from(s, next, vs, fs)
        } else {
            let t1 = token_end(s, t0, e);
            if t1 - t0 == 1 && s[t0] == 118 {
                match parse_coords(s, t1, e) {
                    Ok(p) => parse_from(s, next, vs.push(p), fs),
                    Err(err) => Err(err),
                }
            } else if t1 - t0 == 1 && s[t0] == 102 {
                match parse_face(s, t1, e, Seq::empty()) {
                    Ok(f) => parse_from(s, next, vs, fs.push(f)),
                    Err(err) => Err(err),
                }
            } else {
                parse_from(s, next, vs, fs)
            }
        }
    }
}

/// Three whitespace-separated coordinates after position j of a vertex
/// line; anything after the third is ignored, as the file format
/// allows.
pub open spec fn parse_coords(s: Seq<u8>, j: int, e: int) -> Result<P, LoadError> {
    match parse_coord(s, j, e) {
        Ok(xn) => match parse_coord(s, xn.1, e) {
            Ok(yn) => match parse_coord(s, yn.1, e) {
                Ok(zn) => Ok(P { x: xn.0 as i64, y: yn.0 as i64, z: zn.0 as i64 }),
                Err(err) => Err(err),
            },
            Err(err) => Err(err),
        },
        Err(err) => Err(err),
    }
}

/// One coordinate token after position j: its fixed-point value, within
/// the vertex range, and the position after the token.
pub open spec fn parse_coord(s: Seq<u8>, j: int, e: int) -> Result<(int, int), LoadError> {
    let t0 = skip_ws(s, j, e);
    if t0 >= e {
        Err(LoadError::BadNumber)
    } else {
        let t1 = token_end(s, t0, e);
        match number_val(s, t0, t1) {
            Option::Some(v) => if mag(v) <= crate::VERT_BOUND as int {
                Ok((v, t1))
            } else {
                Err(LoadError::CoordOutOfRange)
            },
            Option::None => Err(LoadError::BadNumber),
        }
    }
}

/// The remaining index tokens of a face line, converted to 0-based.
pub open spec fn parse_face(s: Seq<u8>, j: int, e: int, acc: Seq<usize>) -> Result<
    Seq<usize>,
    LoadError,
>
    decreases e - j,
{
    let t0 = skip_ws(s, j, e);
    if t0 >= e {
        Ok(acc)
    } else {
        let t1 = token_end(s, t0, e);
        match index_val(s, t0, t1) {
            Option::Some(v) => if v >= 1 {
                if j < t1 <= e {
                    parse_face(s, t1, e, acc.push((v - 1) as usize))
                } else {
                    Err(LoadError::BadNumber)
                }
            } else {
                Err(LoadError::BadNumber)
            },
            Option::None => Err(LoadError::BadNumber),
        }
    }
}

/// The number of vertex lines in the input: lines whose first token is
/// exactly "v".
pub open spec fn count_lines(s: Seq<u8>, i: int, first: u8) -> int
    decreases s.len() - i,
{
    if i < 0 || i >= s.len() {
        0
    } else {
        let e = line_end(s, i);
        let t0 = skip_ws(s, i, e);
        let next = if e + 1 > s.len() {
            s.len() as int
        } else if e < i {
            i + 1
        } else {
            e + 1
        };
        let here: int = if t0 < e && token_end(s, t0, e) - t0 == 1 && s[t0] == first {
            1
        } else {
            0
        };
        here + count_lines(s, next, first)
    }
}

/// What the loader returns on the whole input: the folded state, held to
/// the index invariant against the final vertex count.
pub open spec fn parse_obj_s(s: Seq<u8>) -> Result<(Seq<P>, Seq<Seq<usize>>), LoadError> {
    match parse_from(s, 0, Seq::empty(), Seq::empty()) {
        Ok(st) => if exists|i: int, j: int|
            #![trigger st.1[i][j]]
            0 <= i < st.1.len() && 0 <= j < st.1[i].len() && st.1[i][j] >= st.0.len() {
            Err(LoadError::IndexOutOfRange)
        } else {
            Ok(st)
        },
        Err(err) => Err(err),
    }
}


/// The views of the gathered face vectors.
pub open spec fn faces_vw(fs: Seq<Vec<usize>>) -> Seq<Seq<usize>> {
    fs.map_values(|f: Vec<usize>| f@)
}

/// A successful fold gathers one vertex per "v" line and one face per
/// "f" line.
proof fn lemma_parse_counts(s: Seq<u8>, i: int, vs: Seq<P>, fs: Seq<Seq<usize>>)
    ensures
        parse_from(s, i, vs, fs) matches Ok(st) ==> st.0.len() == vs.len() + count_lines(s, i, 118)
            && st.1.len() == fs.len() + count_lines(s, i, 102),
    decreases s.len() - i,
{
    if i < 0 || i >= s.len() {
    } else {
        let e = line_end(s, i);
        let t0 = skip_ws(s, i, e);
        let next = if e + 1 > s.len() {
            s.len() as int
        } else if e < i {
            i + 1
        } else {
            e + 1
        };
        if t0 >= e {
            lemma_parse_counts(s, next, vs, fs);
        } else {
            let t1 = token_end(s, t0, e);
            if t1 - t0 == 1 && s[t0] == 118 {
                match parse_coords(s, t1, e) {
                    Ok(p) => lemma_parse_counts(s, next, vs.push(p), fs),
                    Err(_) => {},
                }
            } else if t1 - t0 == 1 && s[t0] == 102 {
                match parse_face(s, t1, e, Seq::empty()) {
                    Ok(f) => lemma_parse_counts(s, next, vs, fs.push(f)),
                    Err(_) => {},
                }
            } else {
                lemma_parse_counts(s, next, vs, fs);
            }
        }
    }
}

/// Finds the end of the line starting at i.
fn scan_line_end(s: &[u8], i: usize) -> (e: usize)
    requires
        i <= s.len(),
    ensures
        e as int == line_end(s@, i as int),
        i <= e <= s.len(),
{
    let mut j = i;
    while j < s.len() && s[j] != 10
        invariant
            i <= j <= s.len(),
            line_end(s@, i as int) == line_end(s@, j as int),
        decreases s.len() - j,
    {
        j = j + 1;
    }
    j
}

/// Finds the first non-separator at or after j, up to e.
fn scan_skip_ws(s: &[u8], j: usize, e: usize) -> (r: usize)
    requires
        j <= e <= s.len(),
    ensures
        r as int == skip_ws(s@, j as int, e as int),
        j <= r <= e,
        r < e ==> !is_ws(s@[r as int]),
{
    let mut k = j;
    while k < e && (s[k] == 32 || s[k] == 9 || s[k] == 13)
        invariant
            j <= k <= e <= s.len(),
            skip_ws(s@, j as int, e as int) == skip_ws(s@, k as int, e as int),
        decreases e - k,
    {
        k = k + 1;
    }
    k
}

/// Finds the end of the token starting at j, up to e.
fn scan_token_end(s: &[u8], j: usize, e: usize) -> (r: usize)
    requires
        j <= e <= s.len(),
    ensures
        r as int == token_end(s@, j as int, e as int),
        j <= r <= e,
        j < e && !is_ws(s@[j as int]) ==> r > j,
{
    proof {
        if (j as int) < e as int && !is_ws(s@[j as int]) {
            lemma_token_end_ge(s@, j as int + 1, e as int);
        }
    }
    let mut k = j;
    while k < e && !(s[k] == 32 || s[k] == 9 || s[k] == 13)
        invariant
            j <= k <= e <= s.len(),
            token_end(s@, j as int, e as int) == token_end(s@, k as int, e as int),
        decreases e - k,
    {
        k = k + 1;
    }
    k
}

/// Finds the first non-digit at or after j, up to e.
fn scan_digits_end(s: &[u8], j: usize, e: usize) -> (r: usize)
    requires
        j <= e <= s.len(),
    ensures
        r as int == digits_end(s@, j as int, e as int),
        j <= r <= e,
{
    let mut k = j;
    while k < e && 48 <= s[k] && s[k] <= 57
        invariant
            j <= k <= e <= s.len(),
            digits_end(s@, j as int, e as int) == digits_end(s@, k as int, e as int),
        decreases e - k,
    {
        k = k + 1;
    }
    k
}

/// Reads the value of the digit run [j, e).
fn scan_digits_val(s: &[u8], j: usize, e: usize) -> (r: Option<u64>)
    requires
        j <= e <= s.len(),
    ensures
        match r {
            Option::Some(v) => digits_val(s@, j as int, e as int, 0) == Option::Some(v as int)
                && v <= 0xFFFF_FFFF,
            Option::None => digits_val(s@, j as int, e as int, 0) matches Option::None,
        },
{
    let mut k = j;
    let mut acc: u64 = 0;
    while k < e
        invariant
            j <= k <= e <= s.len(),
            acc <= 0xFFFF_FFFF,
            digits_val(s@, j as int, e as int, 0) == digits_val(s@, k as int, e as int, acc as int),
        decreases e - k,
    {
        let c = s[k];
        if !(48 <= c && c <= 57) {
            return None;
        }
        let d: u64 = (c - 48) as u64;
        if acc * 10 + d > 0xFFFF_FFFF {
            return None;
        }
        acc = acc * 10 + d;
        k = k + 1;
    }
    Some(acc)
}

/// Reads the weighted value and weighted count of the fraction run
/// [j, e).
fn scan_frac_val(s: &[u8], j: usize, e: usize) -> (r: Option<(u64, u64)>)
    requires
        j <= e <= s.len(),
    ensures
        match r {
            Option::Some(v) => frac_val(s@, j as int, e as int, 0, 0) == Option::Some(
                (v.0 as int, v.1 as int),
            ) && v.0 < 100000 && v.1 <= 5,
            Option::None => frac_val(s@, j as int, e as int, 0, 0) matches Option::None,
        },
{
    let mut k = j;
    let mut acc: u64 = 0;
    let mut n: u64 = 0;
    while k < e
        invariant
            j <= k <= e <= s.len(),
            n <= 5,
            acc < 100000,
            n < 5 ==> acc < if n == 0 { 1int } else if n == 1 { 10int } else if n == 2 { 100int }
                else if n == 3 { 1000int } else { 10000int },
            frac_val(s@, j as int, e as int, 0, 0) == frac_val(
                s@,
                k as int,
                e as int,
                acc as int,
                n as int,
            ),
        decreases e - k,
    {
        let c = s[k];
        if !(48 <= c && c <= 57) {
            return None;
        }
        if n < 5 {
            acc = acc * 10 + ((c - 48) as u64);
            n = n + 1;
        }
        k = k + 1;
    }
    Some((acc, n))
}

/// Reads the fixed-point value of the numeric token [t0, t1).
fn parse_number_tok(s: &[u8], t0: usize, t1: usize) -> (r: Option<i64>)
    requires
        t0 <= t1 <= s.len(),
    ensures
        match r {
            Option::Some(v) => number_val(s@, t0 as int, t1 as int) == Option::Some(v as int)
                && mag(v as int) <= 0x2_0000_0000_0000,
            Option::None => number_val(s@, t0 as int, t1 as int) matches Option::None,
        },
{
    let neg = t0 < t1 && s[t0] == 45;
    let j1 = if t0 < t1 && (s[t0] == 45 || s[t0] == 43) {
        t0 + 1
    } else {
        t0
    };
    let de = scan_digits_end(s, j1, t1);
    if de == t1 {
        if de == j1 {
            return None;
        }
        match scan_digits_val(s, j1, de) {
            Some(ip) => {
                let v: i64 = (ip as i64) * SCALE;
                if neg {
                    Some(-v)
                } else {
                    Some(v)
                }
            },
            None => None,
        }
    } else if s[de] == 46 {
        if de == j1 && de + 1 == t1 {
            return None;
        }
        match scan_digits_val(s, j1, de) {
            Some(ip) => {
                match scan_frac_val(s, de + 1, t1) {
                    Some(fk) => {
                        let p10: i64 = if fk.1 == 0 {
                            1
                        } else if fk.1 == 1 {
                            10
                        } else if fk.1 == 2 {
                            100
                        } else if fk.1 == 3 {
                            1000
                        } else if fk.1 == 4 {
                            10000
                        } else {
                            100000
                        };
                        proof {
                            reveal_with_fuel(pow10, 7);
                            assert(p10 as int == pow10(fk.1 as int));
                        }
                        let v: i64 = (ip as i64) * SCALE + tdiv64((fk.0 as i64) * SCALE, p10);
                        proof {
                            crate::fixed::lemma_tdiv_mag((fk.0 as i64 * SCALE) as int, p10 as int);
                        }
                        if neg {
                            Some(-v)
                        } else {
                            Some(v)
                        }
                    },
                    None => None,
                }
            },
            None => None,
        }
    } else {
        None
    }
}

/// Reads the 1-based face index at the front of the token [t0, t1).
fn parse_index_tok(s: &[u8], t0: usize, t1: usize) -> (r: Option<u64>)
    requires
        t0 <= t1 <= s.len(),
    ensures
        match r {
            Option::Some(v) => index_val(s@, t0 as int, t1 as int) == Option::Some(v as int)
                && v <= 0xFFFF_FFFF,
            Option::None => index_val(s@, t0 as int, t1 as int) matches Option::None,
        },
{
    let de = scan_digits_end(s, t0, t1);
    if de == t0 {
        return None;
    }
    if de < t1 && s[de] != 47 {
        return None;
    }
    scan_digits_val(s, t0, de)
}

/// Reads one coordinate token after position j of a vertex line.
fn parse_coord_tok(s: &[u8], j: usize, e: usize) -> (r: Result<(i64, usize), LoadError>)
    requires
        j <= e <= s.len(),
    ensures
        match r {
            Ok(vn) => parse_coord(s@, j as int, e as int) == Ok::<(int, int), LoadError>(
                (vn.0 as int, vn.1 as int),
            ) && vn.1 <= e && mag(vn.0 as int) <= VERT_BOUND as int,
            Err(err) => parse_coord(s@, j as int, e as int) == Err::<(int, int), LoadError>(err),
        },
{
    let t0 = scan_skip_ws(s, j, e);
    if t0 >= e {
        return Err(LoadError::BadNumber);
    }
    let t1 = scan_token_end(s, t0, e);
    match parse_number_tok(s, t0, t1) {
        Some(v) => {
            if -VERT_BOUND <= v && v <= VERT_BOUND {
                Ok((v, t1))
            } else {
                Err(LoadError::CoordOutOfRange)
            }
        },
        None => Err(LoadError::BadNumber),
    }
}

/// Loads a mesh from the bytes of a line-oriented mesh file: a line
/// whose first token is "v" defines a vertex from its next three numeric
/// tokens; a line whose first token is "f" defines a face from its index
/// tokens, converted from the file's 1-based form; every other line is
/// ignored. A malformed token, an out-of-range coordinate or an index
/// outside the final vertex list is a fatal error and no mesh is kept.
pub fn parse_obj(input: &[u8]) -> (r: Result<Mesh, LoadError>)
    ensures
        match r {
            Ok(m) => parse_obj_s(input@) == Ok::<(Seq<P>, Seq<Seq<usize>>), LoadError>(
                (m.vertices@, faces_vw(m.faces@)),
            ) && m.wf() && m.vertices@.len() == count_lines(input@, 0, 118) && m.faces@.len()
                == count_lines(input@, 0, 102),
            Err(err) => parse_obj_s(input@) == Err::<(Seq<P>, Seq<Seq<usize>>), LoadError>(err),
        },
{
    let mut verts: Vec<P> = Vec::new();
    let mut faces: Vec<Vec<usize>> = Vec::new();
    let mut i: usize = 0;
    proof {
        assert(faces_vw(faces@) =~= Seq::<Seq<usize>>::empty());
    }
    while i < input.len()
        invariant
            i <= input.len(),
            parse_from(input@, 0, Seq::empty(), Seq::empty()) == parse_from(
                input@,
                i as int,
                verts@,
                faces_vw(faces@),
            ),
            forall|k: int|
                0 <= k < verts.len() ==> in_bound(#[trigger] verts@[k], VERT_BOUND as int),
        decreases input.len() - i,
    {
        let e = scan_line_end(input, i);
        let next = if e >= input.len() {
            input.len()
        } else {
            e + 1
        };
        let t0 = scan_skip_ws(input, i, e);
        if t0 < e {
            let t1 = scan_token_end(input, t0, e);
            if t1 - t0 == 1 && input[t0] == 118 {
                let xv = match parse_coord_tok(input, t1, e) {
                    Ok(v) => v,
                    Err(err) => {
                        proof {
                            assert(parse_coords(input@, t1 as int, e as int) == Err::<
                                P,
                                LoadError,
                            >(err));
                            assert(parse_from(input@, i as int, verts@, faces_vw(faces@))
                                == Err::<(Seq<P>, Seq<Seq<usize>>), LoadError>(err));
                            assert(parse_from(input@, 0, Seq::empty(), Seq::empty())
                                == Err::<(Seq<P>, Seq<Seq<usize>>), LoadError>(err));
                            assert(parse_obj_s(input@) == Err::<
                                (Seq<P>, Seq<Seq<usize>>),
                                LoadError,
                            >(err));
                        }
                        return Err(err);
                    },
                };
                let yv = match parse_coord_tok(input, xv.1, e) {
                    Ok(v) => v,
                    Err(err) => {
                        proof {
                            assert(parse_coords(input@, t1 as int, e as int) == Err::<
                                P,
                                LoadError,
                            >(err));
                            assert(parse_from(input@, i as int, verts@, faces_vw(faces@))
                                == Err::<(Seq<P>, Seq<Seq<usize>>), LoadError>(err));
                            assert(parse_from(input@, 0, Seq::empty(), Seq::empty())
                                == Err::<(Seq<P>, Seq<Seq<usize>>), LoadError>(err));
                            assert(parse_obj_s(input@) == Err::<
                                (Seq<P>, Seq<Seq<usize>>),
                                LoadError,
                            >(err));
                        }
                        return Err(err);
                    },
                };
                let zv = match parse_coord_tok(input, yv.1, e) {
                    Ok(v) => v,
                    Err(err) => {
                        proof {
                            assert(parse_coords(input@, t1 as int, e as int) == Err::<
                                P,
                                LoadError,
                            >(err));
                            assert(parse_from(input@, i as int, verts@, faces_vw(faces@))
                                == Err::<(Seq<P>, Seq<Seq<usize>>), LoadError>(err));
                            assert(parse_from(input@, 0, Seq::empty(), Seq::empty())
                                == Err::<(Seq<P>, Seq<Seq<usize>>), LoadError>(err));
                            assert(parse_obj_s(input@) == Err::<
                                (Seq<P>, Seq<Seq<usize>>),
                                LoadError,
                            >(err));
                        }
                        return Err(err);
                    },
                };
                let p = P { x: xv.0, y: yv.0, z: zv.0 };
                verts.push(p);
            } else if t1 - t0 == 1 && input[t0] == 102 {
                let mut f: Vec<usize> = Vec::new();
                let mut jj: usize = t1;
                proof {
                    assert(f@ =~= Seq::<usize>::empty());
                }
                loop
                    invariant
                        t1 <= jj <= e <= input.len(),
                        i <= input.len(),
                        e as int == line_end(input@, i as int),
                        t0 as int == skip_ws(input@, i as int, e as int),
                        i <= t0 < e,
                        t1 as int == token_end(input@, t0 as int, e as int),
                        t1 - t0 == 1,
                        input@[t0 as int] == 102,
                        parse_from(input@, 0, Seq::empty(), Seq::empty()) == parse_from(
                            input@,
                            i as int,
                            verts@,
                            faces_vw(faces@),
                        ),
                        parse_face(input@, t1 as int, e as int, Seq::empty()) == parse_face(
                            input@,
                            jj as int,
                            e as int,
                            f@,
                        ),
                    ensures
                        parse_face(input@, t1 as int, e as int, Seq::empty()) == Ok::<
                            Seq<usize>,
                            LoadError,
                        >(f@),
                    decreases e - jj,
                {
                    let q0 = scan_skip_ws(input, jj, e);
                    if q0 >= e {
                        break ;
                    }
                    let q1 = scan_token_end(input, q0, e);
                    match parse_index_tok(input, q0, q1) {
                        Some(v) => {
                            if v >= 1 {
                                f.push((v - 1) as usize);
                                jj = q1;
                            } else {
                                proof {
                                    assert(skip_ws(input@, jj as int, e as int) == q0 as int);
                                    assert((q0 as int) < (e as int));
                                    assert(token_end(input@, q0 as int, e as int) == q1 as int);
                                    assert(index_val(input@, q0 as int, q1 as int)
                                        == Option::<int>::Some(v as int));
                                    assert(parse_face(input@, jj as int, e as int, f@)
                                        == Err::<Seq<usize>, LoadError>(LoadError::BadNumber));
                                    assert(parse_face(input@, t1 as int, e as int, Seq::empty())
                                        == Err::<Seq<usize>, LoadError>(LoadError::BadNumber));
                                    assert(parse_from(input@, i as int, verts@, faces_vw(faces@))
                                        == Err::<(Seq<P>, Seq<Seq<usize>>), LoadError>(LoadError::BadNumber));
                                    assert(parse_from(input@, 0, Seq::empty(), Seq::empty())
                                        == Err::<(Seq<P>, Seq<Seq<usize>>), LoadError>(LoadError::BadNumber));
                                    assert(parse_obj_s(input@) == Err::<
                                        (Seq<P>, Seq<Seq<usize>>),
                                        LoadError,
                                        >(LoadError::BadNumber));
                                }
                                return Err(LoadError::BadNumber);
                            }
                        },
                        None => {
                            proof {
                                assert(parse_face(input@, t1 as int, e as int, Seq::empty())
                                    == Err::<Seq<usize>, LoadError>(LoadError::BadNumber));
                                assert(parse_from(input@, i as int, verts@, faces_vw(faces@))
                                    == Err::<(Seq<P>, Seq<Seq<usize>>), LoadError>(LoadError::BadNumber));
                                assert(parse_from(input@, 0, Seq::empty(), Seq::empty())
                                    == Err::<(Seq<P>, Seq<Seq<usize>>), LoadError>(LoadError::BadNumber));
                                assert(parse_obj_s(input@) == Err::<
                                    (Seq<P>, Seq<Seq<usize>>),
                                    LoadError,
                                    >(LoadError::BadNumber));
                            }
                            return Err(LoadError::BadNumber);
                        },
                    }
                }
                let ghost fprev = faces@;
                faces.push(f);
                proof {
                    assert(faces_vw(faces@) =~= faces_vw(fprev).push(faces@[faces@.len()
                        - 1]@));
                }
            }
        }
        i = next;
    }
    let nv = verts.len();
    let mut fi: usize = 0;
    while fi < faces.len()
        invariant
            fi <= faces.len(),
            nv == verts.len(),
            parse_from(input@, 0, Seq::empty(), Seq::empty()) == Ok::<
                (Seq<P>, Seq<Seq<usize>>),
                LoadError,
            >((verts@, faces_vw(faces@))),
            forall|k: int|
                0 <= k < verts.len() ==> in_bound(#[trigger] verts@[k], VERT_BOUND as int),
            forall|a: int, b: int|
                0 <= a < fi && 0 <= b < faces@[a].len() ==> #[trigger] faces@[a]@[b] < nv,
        decreases faces.len() - fi,
    {
        let fl = faces[fi].len();
        let mut bi: usize = 0;
        while bi < fl
            invariant
                fi < faces.len(),
                bi <= fl,
                fl == faces@[fi as int].len(),
                nv == verts.len(),
                parse_from(input@, 0, Seq::empty(), Seq::empty()) == Ok::<
                    (Seq<P>, Seq<Seq<usize>>),
                    LoadError,
                >((verts@, faces_vw(faces@))),
                forall|b: int| 0 <= b < bi ==> #[trigger] faces@[fi as int]@[b] < nv,
            decreases fl - bi,
        {
            if faces[fi][bi] >= nv {
                proof {
                    assert(faces_vw(faces@).len() == faces@.len());
                    assert(faces_vw(faces@)[fi as int] == faces@[fi as int]@);
                    assert(0 <= (fi as int) && (fi as int) < faces_vw(faces@).len());
                    assert(0 <= (bi as int) && (bi as int) < faces_vw(faces@)[fi as int].len());
                    assert(faces_vw(faces@)[fi as int][bi as int] >= verts@.len());
                    let ghost stv = parse_from(
                        input@,
                        0,
                        Seq::empty(),
                        Seq::empty(),
                    )->Ok_0;
                    assert(stv == (verts@, faces_vw(faces@)));
                    assert(stv.1[fi as int][bi as int] >= stv.0.len());
                    assert(exists|a: int, b: int|
                        #![trigger stv.1[a][b]]
                        0 <= a < stv.1.len() && 0 <= b < stv.1[a].len() && stv.1[a][b]
                            >= stv.0.len());
                    assert(parse_obj_s(input@) == Err::<
                        (Seq<P>, Seq<Seq<usize>>),
                        LoadError,
                    >(LoadError::IndexOutOfRange));
                }
                return Err(LoadError::IndexOutOfRange);
            }
            bi = bi + 1;
        }
        fi = fi + 1;
    }
    proof {
        lemma_parse_counts(input@, 0, Seq::empty(), Seq::empty());
        assert forall|a: int, b: int|
            0 <= a < faces_vw(faces@).len() && 0 <= b < faces_vw(faces@)[a].len() implies #[trigger] faces_vw(
            faces@,
        )[a][b] < verts@.len() by {
            assert(faces@[a]@[b] < nv);
        }
    }
    Ok(Mesh { vertices: verts, faces })
}

} // verus!
