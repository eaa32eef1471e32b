//! The parameter blob and its decoding.
//!
//! A plugin receives its configuration as a UTF-8 text document holding one
//! object in a JSON-like notation: `{ "field": value, ... }`, where a value is
//! a non-negative integer or a boolean. The field set is deliberately closed:
//! a document must hold exactly the plugin's own fields, each once and in any
//! order, and a field name is a plain lowercase word with no escape
//! sequences. Anything else — syntax errors, trailing text, a missing,
//! repeated or unrecognized field, a value of the wrong type or out of range
//! — surfaces as the invalid-parameters status, never as a crash or as
//! success.
//!
//! The decoder works on the raw bytes of the document. Its specification is a
//! deterministic recursive descent over `Seq<u8>`; the executable scanner is
//! proved to return exactly what the specification says, so which documents
//! are accepted, and what they decode to, is pinned down byte for byte.

use vstd::prelude::*;

verus! {

/// One decoded field value: a non-negative integer or a boolean.
#[derive(Clone, Copy, Debug, PartialEq, Eq, Structural)]
pub enum Scalar {
    /// A non-negative integer value.
    Uint(u32),
    /// A boolean value.
    Flag(bool),
}

/// The field names any plugin of this system understands.
#[derive(Clone, Copy, Debug, PartialEq, Eq, Structural)]
pub enum FieldKey {
    /// Blur kernel half-width, in pixels.
    Radius,
    /// Blur repeat count.
    Iterations,
    /// Selects the weighted (Gaussian-like) blur over the uniform one.
    Weighted,
    /// Mirror along the vertical axis (swap columns).
    Horizontal,
    /// Mirror along the horizontal axis (swap rows).
    Vertical,
}

/// Whitespace accepted between tokens.
pub open spec fn is_ws(b: u8) -> bool {
    b as char == ' ' || b as char == '\t' || b as char == '\n' || b as char == '\r'
}

/// ASCII decimal digit.
pub open spec fn is_digit(b: u8) -> bool {
    48 <= b <= 57
}

/// ASCII lowercase letter, the only bytes allowed in a field name.
pub open spec fn is_letter(b: u8) -> bool {
    97 <= b <= 122
}

/// The first position at or after `i` holding no whitespace (or the end).
pub open spec fn ws_end(s: Seq<u8>, i: int) -> int
    decreases s.len() - i,
{
    if 0 <= i < s.len() && is_ws(s[i]) {
        ws_end(s, i + 1)
    } else {
        i
    }
}

/// The first position at or after `i` holding no digit (or the end).
pub open spec fn digits_end(s: Seq<u8>, i: int) -> int
    decreases s.len() - i,
{
    if 0 <= i < s.len() && is_digit(s[i]) {
        digits_end(s, i + 1)
    } else {
        i
    }
}

/// The first position at or after `i` holding no lowercase letter (or the end).
pub open spec fn letters_end(s: Seq<u8>, i: int) -> int
    decreases s.len() - i,
{
    if 0 <= i < s.len() && is_letter(s[i]) {
        letters_end(s, i + 1)
    } else {
        i
    }
}

proof fn lemma_digits_end_bounds(s: Seq<u8>, i: int)
    requires
        0 <= i <= s.len(),
    ensures
        i <= digits_end(s, i) <= s.len(),
    decreases s.len() - i,
{
    if i < s.len() && is_digit(s[i]) {
        lemma_digits_end_bounds(s, i + 1);
    }
}

/// Scan past whitespace, returning exactly `ws_end`.
fn scan_ws(s: &Vec<u8>, i: usize) -> (j: usize)
    requires
        i <= s@.len(),
    ensures
        j == ws_end(s@, i as int),
        i <= j <= s@.len(),
        j < s@.len() ==> !is_ws(s@[j as int]),
{
    let mut j = i;
    while j < s.len() && (s[j] as char == ' ' || s[j] as char == '\t' || s[j] as char == '\n' || s[j] as char == '\r')
        invariant
            i <= j <= s@.len(),
            ws_end(s@, i as int) == ws_end(s@, j as int),
        decreases s@.len() - j,
    {
        j = j + 1;
    }
    j
}

/// Scan past digits, returning exactly `digits_end`.
fn scan_digits(s: &Vec<u8>, i: usize) -> (j: usize)
    requires
        i <= s@.len(),
    ensures
        j == digits_end(s@, i as int),
        i <= j <= s@.len(),
{
    let mut j = i;
    while j < s.len() && 48 <= s[j] && s[j] <= 57
        invariant
            i <= j <= s@.len(),
            digits_end(s@, i as int) == digits_end(s@, j as int),
        decreases s@.len() - j,
    {
        j = j + 1;
    }
    j
}

/// Scan past lowercase letters, returning exactly `letters_end`.
fn scan_letters(s: &Vec<u8>, i: usize) -> (j: usize)
    requires
        i <= s@.len(),
    ensures
        j == letters_end(s@, i as int),
        i <= j <= s@.len(),
{
    let mut j = i;
    while j < s.len() && 97 <= s[j] && s[j] <= 122
        invariant
            i <= j <= s@.len(),
            letters_end(s@, i as int) == letters_end(s@, j as int),
        decreases s@.len() - j,
    {
        j = j + 1;
    }
    j
}

/// The number denoted by the digit run `[i, j)`, read left to right.
pub open spec fn uint_value(s: Seq<u8>, i: int, j: int) -> nat
    decreases j - i,
{
    if j <= i {
        0
    } else {
        uint_value(s, i, j - 1) * 10 + (s[j - 1] - 48) as nat
    }
}

proof fn lemma_uint_value_monotone(s: Seq<u8>, i: int, j1: int, j2: int)
    requires
        i <= j1 <= j2,
    ensures
        uint_value(s, i, j1) <= uint_value(s, i, j2),
    decreases j2 - j1,
{
    if j1 < j2 {
        lemma_uint_value_monotone(s, i, j1, j2 - 1);
    }
}

/// A digit run is a well-formed number only if it has no leading zero.
pub open spec fn number_format_ok(s: Seq<u8>, i: int, j: int) -> bool {
    j - i == 1 || s[i] as char != '0'
}

/// `true` spelled out at position `i`.
pub open spec fn kw_true_at(s: Seq<u8>, i: int) -> bool {
    &&& i + 4 <= s.len()
    &&& s[i] as char == 't'
    &&& s[i + 1] as char == 'r'
    &&& s[i + 2] as char == 'u'
    &&& s[i + 3] as char == 'e'
}

/// `false` spelled out at position `i`.
pub open spec fn kw_false_at(s: Seq<u8>, i: int) -> bool {
    &&& i + 5 <= s.len()
    &&& s[i] as char == 'f'
    &&& s[i + 1] as char == 'a'
    &&& s[i + 2] as char == 'l'
    &&& s[i + 3] as char == 's'
    &&& s[i + 4] as char == 'e'
}

/// One scalar value read at position `i`: the value and the position after
/// it, or nothing if no well-formed scalar (a decimal number fitting `u32`,
/// `true`, or `false`) starts there.
pub open spec fn parse_scalar(s: Seq<u8>, i: int) -> Option<(Scalar, int)> {
    if 0 <= i < s.len() && is_digit(s[i]) {
        let e = digits_end(s, i);
        if number_format_ok(s, i, e) && uint_value(s, i, e) <= u32::MAX {
            Some((Scalar::Uint(uint_value(s, i, e) as u32), e))
        } else {
            None
        }
    } else if kw_true_at(s, i) {
        Some((Scalar::Flag(true), i + 4))
    } else if kw_false_at(s, i) {
        Some((Scalar::Flag(false), i + 5))
    } else {
        None
    }
}

/// Read one scalar at position `i`, returning exactly what `parse_scalar`
/// says.
fn scan_scalar(s: &Vec<u8>, i: usize) -> (r: Option<(Scalar, usize)>)
    requires
        i <= s@.len(),
    ensures
        r is Some <==> parse_scalar(s@, i as int) is Some,
        r matches Some((v, j)) ==> parse_scalar(s@, i as int) == Some((v, j as int)) && i < j <= s@.len(),
{
    if i < s.len() && 48 <= s[i] && s[i] <= 57 {
        let e = scan_digits(s, i);
        proof {
            lemma_digits_end_bounds(s@, i as int + 1);
            assert(digits_end(s@, i as int) == digits_end(s@, i as int + 1));
        }
        if !(e - i == 1 || s[i] != 48) {
            return None;
        }
        // Accumulate the value; a u64 cannot overflow here because the
        // accumulator is bounded by u32::MAX before every step.
        let mut k = i;
        let mut acc: u64 = 0;
        while k < e
            invariant
                i <= k <= e <= s@.len(),
                e == digits_end(s@, i as int),
                e == digits_end(s@, k as int),
                acc == uint_value(s@, i as int, k as int),
                acc <= u32::MAX,
            decreases e - k,
        {
            proof {
                assert(is_digit(s@[k as int]));
            }
            let d = s[k] - 48;
            acc = acc * 10 + d as u64;
            k = k + 1;
            if acc > u32::MAX as u64 {
                proof {
                    lemma_uint_value_monotone(s@, i as int, k as int, e as int);
                }
                return None;
            }
        }
        Some((Scalar::Uint(acc as u32), e))
    } else if s.len() - i >= 4 && s[i] as char == 't' && s[i + 1] as char == 'r'
        && s[i + 2] as char == 'u' && s[i + 3] as char == 'e' {
        Some((Scalar::Flag(true), i + 4))
    } else if s.len() - i >= 5 && s[i] as char == 'f' && s[i + 1] as char == 'a'
        && s[i + 2] as char == 'l' && s[i + 3] as char == 's' && s[i + 4] as char == 'e' {
        Some((Scalar::Flag(false), i + 5))
    } else {
        None
    }
}

/// The word `radius` spelled by `s[a .. b]`.
pub open spec fn key_radius(s: Seq<u8>, a: int, b: int) -> bool {
    &&& b - a == 6
    &&& s[a] as char == 'r'
    &&& s[a + 1] as char == 'a'
    &&& s[a + 2] as char == 'd'
    &&& s[a + 3] as char == 'i'
    &&& s[a + 4] as char == 'u'
    &&& s[a + 5] as char == 's'
}

/// The word `iterations` spelled by `s[a .. b]`.
pub open spec fn key_iterations(s: Seq<u8>, a: int, b: int) -> bool {
    &&& b - a == 10
    &&& s[a] as char == 'i'
    &&& s[a + 1] as char == 't'
    &&& s[a + 2] as char == 'e'
    &&& s[a + 3] as char == 'r'
    &&& s[a + 4] as char == 'a'
    &&& s[a + 5] as char == 't'
    &&& s[a + 6] as char == 'i'
    &&& s[a + 7] as char == 'o'
    &&& s[a + 8] as char == 'n'
    &&& s[a + 9] as char == 's'
}

/// The word `weighted` spelled by `s[a .. b]`.
pub open spec fn key_weighted(s: Seq<u8>, a: int, b: int) -> bool {
    &&& b - a == 8
    &&& s[a] as char == 'w'
    &&& s[a + 1] as char == 'e'
    &&& s[a + 2] as char == 'i'
    &&& s[a + 3] as char == 'g'
    &&& s[a + 4] as char == 'h'
    &&& s[a + 5] as char == 't'
    &&& s[a + 6] as char == 'e'
    &&& s[a + 7] as char == 'd'
}

/// The word `horizontal` spelled by `s[a .. b]`.
pub open spec fn key_horizontal(s: Seq<u8>, a: int, b: int) -> bool {
    &&& b - a == 10
    &&& s[a] as char == 'h'
    &&& s[a + 1] as char == 'o'
    &&& s[a + 2] as char == 'r'
    &&& s[a + 3] as char == 'i'
    &&& s[a + 4] as char == 'z'
    &&& s[a + 5] as char == 'o'
    &&& s[a + 6] as char == 'n'
    &&& s[a + 7] as char == 't'
    &&& s[a + 8] as char == 'a'
    &&& s[a + 9] as char == 'l'
}

/// The word `vertical` spelled by `s[a .. b]`.
pub open spec fn key_vertical(s: Seq<u8>, a: int, b: int) -> bool {
    &&& b - a == 8
    &&& s[a] as char == 'v'
    &&& s[a + 1] as char == 'e'
    &&& s[a + 2] as char == 'r'
    &&& s[a + 3] as char == 't'
    &&& s[a + 4] as char == 'i'
    &&& s[a + 5] as char == 'c'
    &&& s[a + 6] as char == 'a'
    &&& s[a + 7] as char == 'l'
}

/// Which known field name `s[a .. b]` spells, if any.
pub open spec fn classify_key(s: Seq<u8>, a: int, b: int) -> Option<FieldKey> {
    if key_radius(s, a, b) {
        Some(FieldKey::Radius)
    } else if key_iterations(s, a, b) {
        Some(FieldKey::Iterations)
    } else if key_weighted(s, a, b) {
        Some(FieldKey::Weighted)
    } else if key_horizontal(s, a, b) {
        Some(FieldKey::Horizontal)
    } else if key_vertical(s, a, b) {
        Some(FieldKey::Vertical)
    } else {
        None
    }
}

/// One quoted field name read at position `i`: the key and the position after
/// the closing quote, or nothing if no known key stands there.
pub open spec fn parse_key(s: Seq<u8>, i: int) -> Option<(FieldKey, int)> {
    if 0 <= i < s.len() && s[i] as char == '"' {
        let e = letters_end(s, i + 1);
        if e < s.len() && s[e] as char == '"' {
            match classify_key(s, i + 1, e) {
                Some(k) => Some((k, e + 1)),
                None => None,
            }
        } else {
            None
        }
    } else {
        None
    }
}

/// Decide which known field name the letter run `[a, b)` spells.
fn classify_key_exec(s: &Vec<u8>, a: usize, b: usize) -> (r: Option<FieldKey>)
    requires
        a <= b <= s@.len(),
    ensures
        r == classify_key(s@, a as int, b as int),
{
    let n = b - a;
    if n == 6 && s[a] as char == 'r' && s[a + 1] as char == 'a' && s[a + 2] as char == 'd'
        && s[a + 3] as char == 'i' && s[a + 4] as char == 'u' && s[a + 5] as char == 's' {
        Some(FieldKey::Radius)
    } else if n == 10 && s[a] as char == 'i' && s[a + 1] as char == 't' && s[a + 2] as char == 'e'
        && s[a + 3] as char == 'r' && s[a + 4] as char == 'a' && s[a + 5] as char == 't'
        && s[a + 6] as char == 'i' && s[a + 7] as char == 'o' && s[a + 8] as char == 'n'
        && s[a + 9] as char == 's' {
        Some(FieldKey::Iterations)
    } else if n == 8 && s[a] as char == 'w' && s[a + 1] as char == 'e' && s[a + 2] as char == 'i'
        && s[a + 3] as char == 'g' && s[a + 4] as char == 'h' && s[a + 5] as char == 't'
        && s[a + 6] as char == 'e' && s[a + 7] as char == 'd' {
        Some(FieldKey::Weighted)
    } else if n == 10 && s[a] as char == 'h' && s[a + 1] as char == 'o' && s[a + 2] as char == 'r'
        && s[a + 3] as char == 'i' && s[a + 4] as char == 'z' && s[a + 5] as char == 'o'
        && s[a + 6] as char == 'n' && s[a + 7] as char == 't' && s[a + 8] as char == 'a'
        && s[a + 9] as char == 'l' {
        Some(FieldKey::Horizontal)
    } else if n == 8 && s[a] as char == 'v' && s[a + 1] as char == 'e' && s[a + 2] as char == 'r'
        && s[a + 3] as char == 't' && s[a + 4] as char == 'i' && s[a + 5] as char == 'c'
        && s[a + 6] as char == 'a' && s[a + 7] as char == 'l' {
        Some(FieldKey::Vertical)
    } else {
        None
    }
}

/// Read one quoted field name at position `i`, returning exactly what
/// `parse_key` says.
fn scan_key(s: &Vec<u8>, i: usize) -> (r: Option<(FieldKey, usize)>)
    requires
        i <= s@.len(),
    ensures
        r is Some <==> parse_key(s@, i as int) is Some,
        r matches Some((k, j)) ==> parse_key(s@, i as int) == Some((k, j as int)) && i < j <= s@.len(),
{
    if i < s.len() && s[i] as char == '"' {
        let e = scan_letters(s, i + 1);
        if e < s.len() && s[e] as char == '"' {
            match classify_key_exec(s, i + 1, e) {
                Some(k) => Some((k, e + 1)),
                None => None,
            }
        } else {
            None
        }
    } else {
        None
    }
}

/// One `"key": value` member read at position `i`: the pair and the position
/// after the value.
pub open spec fn parse_member(s: Seq<u8>, i: int) -> Option<((FieldKey, Scalar), int)> {
    match parse_key(s, i) {
        None => None,
        Some((k, j)) => {
            let j2 = ws_end(s, j);
            if j2 < s.len() && s[j2] as char == ':' {
                let j3 = ws_end(s, j2 + 1);
                match parse_scalar(s, j3) {
                    None => None,
                    Some((v, j4)) => Some(((k, v), j4)),
                }
            } else {
                None
            }
        }
    }
}

/// The comma-separated members read from position `i` on, appended to `acc`,
/// and the position after the whitespace that follows the last one.
pub open spec fn parse_members(s: Seq<u8>, i: int, acc: Seq<(FieldKey, Scalar)>) -> Option<
    (Seq<(FieldKey, Scalar)>, int),
>
    decreases s.len() - i,
{
    match parse_member(s, i) {
        None => None,
        Some((m, j)) => {
            let j2 = ws_end(s, j);
            if j2 < s.len() && s[j2] as char == ',' {
                let j3 = ws_end(s, j2 + 1);
                if i < j3 <= s.len() {
                    parse_members(s, j3, acc.push(m))
                } else {
                    None
                }
            } else {
                Some((acc.push(m), j2))
            }
        }
    }
}

/// The member list of the whole document: one object in braces, nothing but
/// whitespace around it, or nothing if the document is not of that shape.
pub open spec fn parse_object(s: Seq<u8>) -> Option<Seq<(FieldKey, Scalar)>> {
    let i = ws_end(s, 0);
    if i < s.len() && s[i] as char == '{' {
        let j = ws_end(s, i + 1);
        if j < s.len() && s[j] as char == '}' {
            if ws_end(s, j + 1) == s.len() {
                Some(Seq::empty())
            } else {
                None
            }
        } else {
            match parse_members(s, j, Seq::empty()) {
                None => None,
                Some((ms, k)) => {
                    if k < s.len() && s[k] as char == '}' && ws_end(s, k + 1) == s.len() {
                        Some(ms)
                    } else {
                        None
                    }
                },
            }
        }
    } else {
        None
    }
}

/// Read one member at position `i`, returning exactly what `parse_member`
/// says.
fn scan_member(s: &Vec<u8>, i: usize) -> (r: Option<((FieldKey, Scalar), usize)>)
    requires
        i <= s@.len(),
    ensures
        r is Some <==> parse_member(s@, i as int) is Some,
        r matches Some((m, j)) ==> parse_member(s@, i as int) == Some((m, j as int)) && i < j
            <= s@.len(),
{
    let (k, j) = match scan_key(s, i) {
        None => {
            return None;
        },
        Some(kj) => kj,
    };
    let j2 = scan_ws(s, j);
    if !(j2 < s.len() && s[j2] as char == ':') {
        return None;
    }
    let j3 = scan_ws(s, j2 + 1);
    match scan_scalar(s, j3) {
        None => None,
        Some((v, j4)) => Some(((k, v), j4)),
    }
}

/// Read the member list from position `start` on, returning exactly what
/// `parse_members` says.
fn scan_members(s: &Vec<u8>, start: usize) -> (r: Option<(Vec<(FieldKey, Scalar)>, usize)>)
    requires
        start <= s@.len(),
    ensures
        r is Some <==> parse_members(s@, start as int, Seq::empty()) is Some,
        r matches Some((ms, k)) ==> parse_members(s@, start as int, Seq::empty()) == Some(
            (ms@, k as int),
        ) && k <= s@.len(),
{
    let mut members: Vec<(FieldKey, Scalar)> = Vec::new();
    let mut pos = start;
    loop
        invariant
            pos <= s@.len(),
            parse_members(s@, start as int, Seq::empty()) == parse_members(
                s@,
                pos as int,
                members@,
            ),
        ensures
            parse_members(s@, start as int, Seq::empty()) matches Some((ms, k)) && ms
                == members@ && k <= s@.len(),
        decreases s@.len() - pos,
    {
        let m = match scan_member(s, pos) {
            None => {
                return None;
            },
            Some(mj) => mj,
        };
        let j2 = scan_ws(s, m.1);
        if j2 < s.len() && s[j2] as char == ',' {
            let j3 = scan_ws(s, j2 + 1);
            members.push(m.0);
            pos = j3;
        } else {
            members.push(m.0);
            proof {
                assert(parse_members(s@, pos as int, members@.drop_last()) == Some(
                    (members@.drop_last().push(m.0), j2 as int),
                ));
                assert(members@.drop_last().push(m.0) =~= members@);
            }
            return Some((members, j2));
        }
    }
}

/// Read the whole document, returning exactly what `parse_object` says.
fn scan_object(s: &Vec<u8>) -> (r: Option<Vec<(FieldKey, Scalar)>>)
    ensures
        r is Some <==> parse_object(s@) is Some,
        r matches Some(ms) ==> parse_object(s@) == Some(ms@),
{
    let i = scan_ws(s, 0);
    if !(i < s.len() && s[i] as char == '{') {
        return None;
    }
    let j = scan_ws(s, i + 1);
    if j < s.len() && s[j] as char == '}' {
        let t = scan_ws(s, j + 1);
        if t == s.len() {
            return Some(Vec::new());
        } else {
            return None;
        }
    }
    let (ms, k) = match scan_members(s, j) {
        None => {
            return None;
        },
        Some(mk) => mk,
    };
    if k < s.len() && s[k] as char == '}' {
        let t = scan_ws(s, k + 1);
        if t == s.len() {
            return Some(ms);
        }
    }
    None
}

/// Decoded configuration of the blur plugin.
#[derive(Clone, Copy, Debug, PartialEq, Eq, Structural)]
pub struct BlurParams {
    /// Kernel half-width, in pixels.
    pub radius: u32,
    /// How many times the averaging pass is repeated.
    pub iterations: u32,
    /// Selects the weighted (Gaussian-like) blur over the uniform one.
    pub weighted: bool,
}

/// Decoded configuration of the mirror plugin.
#[derive(Clone, Copy, Debug, PartialEq, Eq, Structural)]
pub struct MirrorParams {
    /// Mirror along the vertical axis (swap columns within each row).
    pub horizontal: bool,
    /// Mirror along the horizontal axis (swap rows).
    pub vertical: bool,
}

/// Fold one member into the partially collected blur fields: each field once,
/// with the right value type, and no field outside the blur plugin's set.
pub open spec fn blur_field(
    m: (FieldKey, Scalar),
    acc: (Option<u32>, Option<u32>, Option<bool>),
) -> Option<(Option<u32>, Option<u32>, Option<bool>)> {
    match m {
        (FieldKey::Radius, Scalar::Uint(x)) => if acc.0 is None {
            Some((Some(x), acc.1, acc.2))
        } else {
            None
        },
        (FieldKey::Iterations, Scalar::Uint(x)) => if acc.1 is None {
            Some((acc.0, Some(x), acc.2))
        } else {
            None
        },
        (FieldKey::Weighted, Scalar::Flag(b)) => if acc.2 is None {
            Some((acc.0, acc.1, Some(b)))
        } else {
            None
        },
        _ => None,
    }
}

/// Fold a member list into the blur fields, starting from `acc`.
pub open spec fn blur_fields(
    ms: Seq<(FieldKey, Scalar)>,
    acc: (Option<u32>, Option<u32>, Option<bool>),
) -> Option<(Option<u32>, Option<u32>, Option<bool>)>
    decreases ms.len(),
{
    if ms.len() == 0 {
        Some(acc)
    } else {
        match blur_field(ms[0], acc) {
            None => None,
            Some(a2) => blur_fields(ms.drop_first(), a2),
        }
    }
}

/// What the blur plugin's parameter text decodes to, if anything: an object
/// holding exactly `radius`, `iterations` (non-negative integers) and
/// `weighted` (boolean), in any order.
pub open spec fn blur_params_of(s: Seq<u8>) -> Option<BlurParams> {
    match parse_object(s) {
        None => None,
        Some(ms) => match blur_fields(ms, (None, None, None)) {
            Some((Some(r), Some(n), Some(w))) => Some(
                BlurParams { radius: r, iterations: n, weighted: w },
            ),
            _ => None,
        },
    }
}

/// Fold one member into the partially collected mirror fields.
pub open spec fn mirror_field(
    m: (FieldKey, Scalar),
    acc: (Option<bool>, Option<bool>),
) -> Option<(Option<bool>, Option<bool>)> {
    match m {
        (FieldKey::Horizontal, Scalar::Flag(b)) => if acc.0 is None {
            Some((Some(b), acc.1))
        } else {
            None
        },
        (FieldKey::Vertical, Scalar::Flag(b)) => if acc.1 is None {
            Some((acc.0, Some(b)))
        } else {
            None
        },
        _ => None,
    }
}

/// Fold a member list into the mirror fields, starting from `acc`.
pub open spec fn mirror_fields(
    ms: Seq<(FieldKey, Scalar)>,
    acc: (Option<bool>, Option<bool>),
) -> Option<(Option<bool>, Option<bool>)>
    decreases ms.len(),
{
    if ms.len() == 0 {
        Some(acc)
    } else {
        match mirror_field(ms[0], acc) {
            None => None,
            Some(a2) => mirror_fields(ms.drop_first(), a2),
        }
    }
}

/// What the mirror plugin's parameter text decodes to, if anything: an object
/// holding exactly `horizontal` and `vertical` (booleans), in any order.
pub open spec fn mirror_params_of(s: Seq<u8>) -> Option<MirrorParams> {
    match parse_object(s) {
        None => None,
        Some(ms) => match mirror_fields(ms, (None, None)) {
            Some((Some(h), Some(v))) => Some(MirrorParams { horizontal: h, vertical: v }),
            _ => None,
        },
    }
}

impl BlurParams {
    /// Decode the blur plugin's parameter text, exactly as `blur_params_of`
    /// says.
    pub fn parse(s: &Vec<u8>) -> (r: Option<BlurParams>)
        ensures
            r == blur_params_of(s@),
    {
        let ms = match scan_object(s) {
            None => {
                return None;
            },
            Some(ms) => ms,
        };
        let mut radius: Option<u32> = None;
        let mut iterations: Option<u32> = None;
        let mut weighted: Option<bool> = None;
        let mut i: usize = 0;
        proof {
            assert(ms@.skip(0) =~= ms@);
        }
        while i < ms.len()
            invariant
                i <= ms@.len(),
                parse_object(s@) == Some(ms@),
                blur_fields(ms@, (None, None, None)) == blur_fields(
                    ms@.skip(i as int),
                    (radius, iterations, weighted),
                ),
            decreases ms@.len() - i,
        {
            proof {
                assert(ms@.skip(i as int).drop_first() =~= ms@.skip(i as int + 1));
            }
            let m = ms[i];
            match m {
                (FieldKey::Radius, Scalar::Uint(x)) => {
                    if radius.is_some() {
                        return None;
                    }
                    radius = Some(x);
                },
                (FieldKey::Iterations, Scalar::Uint(x)) => {
                    if iterations.is_some() {
                        return None;
                    }
                    iterations = Some(x);
                },
                (FieldKey::Weighted, Scalar::Flag(b)) => {
                    if weighted.is_some() {
                        return None;
                    }
                    weighted = Some(b);
                },
                _ => {
                    return None;
                },
            }
            i = i + 1;
        }
        match (radius, iterations, weighted) {
            (Some(r), Some(n), Some(w)) => Some(
                BlurParams { radius: r, iterations: n, weighted: w },
            ),
            _ => None,
        }
    }
}

impl MirrorParams {
    /// Decode the mirror plugin's parameter text, exactly as
    /// `mirror_params_of` says.
    pub fn parse(s: &Vec<u8>) -> (r: Option<MirrorParams>)
        ensures
            r == mirror_params_of(s@),
    {
        let ms = match scan_object(s) {
            None => {
                return None;
            },
            Some(ms) => ms,
        };
        let mut horizontal: Option<bool> = None;
        let mut vertical: Option<bool> = None;
        let mut i: usize = 0;
        proof {
            assert(ms@.skip(0) =~= ms@);
        }
        while i < ms.len()
            invariant
                i <= ms@.len(),
                parse_object(s@) == Some(ms@),
                mirror_fields(ms@, (None, None)) == mirror_fields(
                    ms@.skip(i as int),
                    (horizontal, vertical),
                ),
            decreases ms@.len() - i,
        {
            proof {
                assert(ms@.skip(i as int).drop_first() =~= ms@.skip(i as int + 1));
            }
            let m = ms[i];
            match m {
                (FieldKey::Horizontal, Scalar::Flag(b)) => {
                    if horizontal.is_some() {
                        return None;
                    }
                    horizontal = Some(b);
                },
                (FieldKey::Vertical, Scalar::Flag(b)) => {
                    if vertical.is_some() {
                        return None;
                    }
                    vertical = Some(b);
                },
                _ => {
                    return None;
                },
            }
            i = i + 1;
        }
        match (horizontal, vertical) {
            (Some(h), Some(v)) => Some(MirrorParams { horizontal: h, vertical: v }),
            _ => None,
        }
    }
}

} // verus!
