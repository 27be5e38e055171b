//! The byte-string operations behind the script environment's `string` library.
use vstd::prelude::*;
use vstd::slice::slice_subrange;

verus! {

/// `x` is a valid index on this machine.
pub open spec fn fits_usize(x: int) -> bool {
    0 <= x <= usize::MAX
}

/// `len - n`, or 0 when `n` exceeds `len`.
pub open spec fn sat_sub(len: int, n: int) -> int {
    if len >= n {
        len - n
    } else {
        0
    }
}

/// The 0-based index of the 1-based position `pos`, where a negative position
/// counts from the end of a string of `len` bytes. Position 0 is an alias for
/// 1; negative positions before the start are clamped to the start; positive
/// positions are not clamped to the length (only to the largest index).
pub open spec fn rel_pos_index(pos: int, len: int) -> int {
    if pos > 0 {
        if fits_usize(pos - 1) {
            pos - 1
        } else {
            usize::MAX as int
        }
    } else if pos == 0 {
        0
    } else {
        sat_sub(len, if fits_usize(-pos) { -pos } else { usize::MAX as int })
    }
}

/// `|x|` as an unsigned integer.
fn unsigned_abs(x: i64) -> (r: u64)
    ensures
        r == if x < 0 { -x } else { x as int },
{
    if x >= 0 {
        x as u64
    } else if x == i64::MIN {
        0x8000_0000_0000_0000u64
    } else {
        (-x) as u64
    }
}

/// Converts a base-1 string position (negative values count from the end of
/// the string) to a base-0 index.
pub fn rel_pos_to_index(pos: i64, len: usize) -> (r: usize)
    ensures
        r == rel_pos_index(pos as int, len as int),
{
    if pos > 0 {
        match usize::try_from(pos - 1) {
            Ok(v) => v,
            Err(_) => usize::MAX,
        }
    } else if pos == 0 {
        0
    } else {
        let n = match usize::try_from(unsigned_abs(pos)) {
            Ok(v) => v,
            Err(_) => usize::MAX,
        };
        len.saturating_sub(n)
    }
}

/// A byte that gives a pattern a special meaning.
pub open spec fn is_special_byte(b: u8) -> bool {
    b == 94 /* ^ */ || b == 36 /* $ */ || b == 42 /* * */ || b == 43 /* + */ || b == 63 /* ? */
        || b == 46 /* . */ || b == 40 /* ( */ || b == 91 /* [ */ || b == 37 /* % */ || b == 45 /* - */
}

/// The pattern holds a byte with a special meaning.
pub fn is_special_pattern(pattern: &[u8]) -> (r: bool)
    ensures
        r == exists|i: int| 0 <= i < pattern@.len() && is_special_byte(#[trigger] pattern@[i]),
{
    let n = pattern.len();
    for i in 0..n
        invariant
            n == pattern@.len(),
            forall|k: int| 0 <= k < i ==> !is_special_byte(#[trigger] pattern@[k]),
    {
        let b = pattern[i];
        if b == 94 || b == 36 || b == 42 || b == 43 || b == 63 || b == 46 || b == 40 || b == 91
            || b == 37 || b == 45 {
            assert(is_special_byte(pattern@[i as int]));
            return true;
        }
    }
    false
}

/// The start index of `string.sub`, or `None` when it does not fit this machine.
pub open spec fn sub_start(i: int, len: int) -> Option<int> {
    if i > 0 {
        if fits_usize(i - 1) {
            Some(i - 1)
        } else {
            None
        }
    } else if i == 0 {
        Some(0)
    } else if fits_usize(-i) {
        Some(sat_sub(len, -i))
    } else {
        None
    }
}

/// The end index (exclusive) of `string.sub`, before clamping to the length,
/// or `None` when it does not fit this machine.
pub open spec fn sub_end(j: Option<i64>, len: int) -> Option<int> {
    match j {
        None => Some(len),
        Some(j) => if j >= 0 {
            if fits_usize(j as int) {
                Some(j as int)
            } else {
                None
            }
        } else if fits_usize(-j) {
            Some(sat_sub(len, -j - 1))
        } else {
            None
        },
    }
}

/// The bytes that `string.sub(s, i, j)` selects from `s`, when the indices fit this machine.
pub open spec fn sub_bytes(s: Seq<u8>, i: i64, j: Option<i64>) -> Option<Seq<u8>> {
    match (sub_start(i as int, s.len() as int), sub_end(j, s.len() as int)) {
        (Some(start), Some(end0)) => {
            let end = if end0 <= s.len() {
                end0
            } else {
                s.len() as int
            };
            if start >= end || start >= s.len() {
                Some(Seq::empty())
            } else {
                Some(s.subrange(start, end))
            }
        },
        _ => None,
    }
}

/// The bytes of `string` from the 1-based position `i` to `j` (inclusive),
/// where negative positions count from the end, as Lua's `string.sub` selects them.
pub fn sub(string: &[u8], i: i64, j: Option<i64>) -> (r: Result<&[u8], std::num::TryFromIntError>)
    ensures
        match sub_bytes(string@, i, j) {
            Some(bytes) => r matches Ok(out) && out@ == bytes,
            None => r is Err,
        },
{
    let len = string.len();
    let start: usize = if i > 0 {
        match usize::try_from(i - 1) {
            Ok(v) => v,
            Err(e) => {
                return Err(e);
            },
        }
    } else if i == 0 {
        0
    } else {
        match usize::try_from(unsigned_abs(i)) {
            Ok(v) => len.saturating_sub(v),
            Err(e) => {
                return Err(e);
            },
        }
    };
    let end0: usize = match j {
        Some(j) => {
            if j >= 0 {
                match usize::try_from(j) {
                    Ok(v) => v,
                    Err(e) => {
                        return Err(e);
                    },
                }
            } else {
                match usize::try_from(unsigned_abs(j)) {
                    Ok(v) => len.saturating_sub(v.saturating_sub(1)),
                    Err(e) => {
                        return Err(e);
                    },
                }
            }
        },
        None => len,
    };
    let end = if end0 <= len {
        end0
    } else {
        len
    };
    if start >= end || start >= len {
        Ok(slice_subrange(string, 0, 0))
    } else {
        Ok(slice_subrange(string, start, end))
    }
}

/// The byte values that `string.byte(s, i, j)` gives: `i` defaults to 1 and `j` to `i`.
pub fn string_byte(s: &[u8], i: Option<i64>, j: Option<i64>) -> (r: Result<
    Vec<i64>,
    std::num::TryFromIntError,
>)
    ensures
        ({
            let i1: i64 = match i {
                Some(v) => v,
                None => 1,
            };
            let j1: Option<i64> = match j {
                Some(v) => Some(v),
                None => Some(i1),
            };
            match sub_bytes(s@, i1, j1) {
                Some(bytes) => r matches Ok(vals) && vals@ == bytes.map_values(|b: u8| b as i64),
                None => r is Err,
            }
        }),
{
    let i1: i64 = match i {
        Some(v) => v,
        None => 1,
    };
    let j1: Option<i64> = match j {
        Some(v) => Some(v),
        None => Some(i1),
    };
    let bytes = match self::sub(s, i1, j1) {
        Ok(b) => b,
        Err(e) => {
            return Err(e);
        },
    };
    let mut vals: Vec<i64> = Vec::new();
    let n = bytes.len();
    for k in 0..n
        invariant
            n == bytes@.len(),
            vals@ == bytes@.take(k as int).map_values(|b: u8| b as i64),
    {
        vals.push(bytes[k] as i64);
        assert(bytes@.take(k + 1).map_values(|b: u8| b as i64) =~= bytes@.take(k as int).map_values(
            |b: u8| b as i64,
        ).push(bytes@[k as int] as i64));
    }
    assert(bytes@.take(n as int) =~= bytes@);
    Ok(vals)
}

/// Why `string.find` refuses a pattern.
#[derive(Debug)]
pub enum FindError {
    /// The pattern holds special bytes, and pattern matching is not provided.
    PatternsUnsupported,
}

impl FindError {
    /// The error value that `string.find` raises for this refusal.
    pub fn message(&self) -> (r: String)
        ensures
            r@ == "TODO: Implement find() pattern matching"@,
    {
        String::from_str("TODO: Implement find() pattern matching")
    }
}

/// `pattern` occurs in `s` at index `q`.
pub open spec fn occurs_at(s: Seq<u8>, q: int, pattern: Seq<u8>) -> bool {
    0 <= q && q + pattern.len() <= s.len() && s.subrange(q, q + pattern.len()) == pattern
}

/// What a plain `string.find(s, pattern, init)` finds: the 1-based first and
/// last positions of the first occurrence of `pattern` at or after `init`.
pub open spec fn find_plain(s: Seq<u8>, pattern: Seq<u8>, init: i64) -> Option<(int, int)> {
    let start = rel_pos_index(init as int, s.len() as int);
    if start >= s.len() || s.len() - start < pattern.len() {
        None
    } else if pattern.len() == 0 {
        Some((start + 1, start))
    } else if exists|q: int| start <= q && #[trigger] occurs_at(s, q, pattern) {
        let q = choose|q: int|
            start <= q && occurs_at(s, q, pattern) && forall|p: int|
                start <= p < q ==> !occurs_at(s, p, pattern);
        Some((q + 1, q + pattern.len()))
    } else {
        None
    }
}

fn occurs_at_exec(s: &[u8], q: usize, pattern: &[u8]) -> (r: bool)
    requires
        q + pattern@.len() <= s@.len(),
    ensures
        r == occurs_at(s@, q as int, pattern@),
{
    let n = pattern.len();
    for k in 0..n
        invariant
            n == pattern@.len(),
            q + n <= s.len(),
            forall|t: int| 0 <= t < k ==> s@[q + t] == #[trigger] pattern@[t],
    {
        if s[q + k] != pattern[k] {
            assert(s@.subrange(q as int, q + n)[k as int] != pattern@[k as int]);
            return false;
        }
    }
    assert(s@.subrange(q as int, q + n) =~= pattern@);
    true
}

/// Lua's `string.find(s, pattern, init, plain)`, for plain patterns: `init`
/// defaults to 1; a pattern with special bytes is refused unless `plain`.
pub fn string_find(s: &[u8], pattern: &[u8], init: Option<i64>, plain: Option<bool>) -> (r: Result<
    Option<(i64, i64)>,
    FindError,
>)
    requires
        s@.len() <= isize::MAX,
    ensures
        ({
            let plain = match plain {
                Some(p) => p,
                None => false,
            };
            let init = match init {
                Some(v) => v,
                None => 1,
            };
            if !plain && exists|i: int| 0 <= i < pattern@.len() && is_special_byte(#[trigger] pattern@[i]) {
                r matches Err(FindError::PatternsUnsupported)
            } else {
                match find_plain(s@, pattern@, init) {
                    Some((a, b)) => r matches Ok(Some((x, y))) && x == a && y == b,
                    None => r matches Ok(None),
                }
            }
        }),
{
    let plain = match plain {
        Some(p) => p,
        None => false,
    };
    if !plain && is_special_pattern(pattern) {
        return Err(FindError::PatternsUnsupported);
    }
    let init = match init {
        Some(v) => v,
        None => 1,
    };
    let len = s.len();
    let plen = pattern.len();
    let start = rel_pos_to_index(init, len);
    if start >= len || len - start < plen {
        return Ok(None);
    }
    if plen == 0 {
        return Ok(Some((start as i64 + 1, start as i64)));
    }
    let found = first_occurrence(s, pattern, start);
    proof {
        if let Some(q) = found {
            let c = choose|c: int|
                start <= c && occurs_at(s@, c, pattern@) && forall|p: int|
                    start <= p < c ==> !occurs_at(s@, p, pattern@);
            assert(start <= q && occurs_at(s@, q as int, pattern@) && forall|p: int|
                start <= p < q ==> !occurs_at(s@, p, pattern@));
            assert(c == q);
        }
    }
    match found {
        Some(q) => Ok(Some((q as i64 + 1, (q + plen) as i64))),
        None => Ok(None),
    }
}

/// The first index from `start` on at which `pattern` (not empty) occurs in `s`.
fn first_occurrence(s: &[u8], pattern: &[u8], start: usize) -> (r: Option<usize>)
    requires
        pattern@.len() > 0,
        start + pattern@.len() <= s@.len(),
    ensures
        match r {
            Some(q) => start <= q && q + pattern@.len() <= s@.len() && occurs_at(s@, q as int, pattern@)
                && forall|p: int| start <= p < q ==> !occurs_at(s@, p, pattern@),
            None => forall|p: int| start <= p ==> !#[trigger] occurs_at(s@, p, pattern@),
        },
{
    let len = s.len();
    let plen = pattern.len();
    let last = len - plen;
    let mut q = start;
    while q <= last
        invariant
            len == s@.len(),
            plen == pattern@.len(),
            plen > 0,
            last + plen == len,
            start <= q <= last + 1,
            forall|p: int| start <= p < q ==> !#[trigger] occurs_at(s@, p, pattern@),
        decreases last + 1 - q,
    {
        if occurs_at_exec(s, q, pattern) {
            return Some(q);
        }
        q = q + 1;
    }
    proof {
        assert forall|p: int| start <= p implies !#[trigger] occurs_at(s@, p, pattern@) by {}
    }
    None
}

/// The ASCII lower-case of a byte.
pub open spec fn lower_byte(b: u8) -> u8 {
    if 65 <= b <= 90 {
        (b + 32) as u8
    } else {
        b
    }
}

/// The ASCII upper-case of a byte.
pub open spec fn upper_byte(b: u8) -> u8 {
    if 97 <= b <= 122 {
        (b - 32) as u8
    } else {
        b
    }
}

/// Lua's `string.lower`: ASCII letters lowered, other bytes kept.
pub fn string_lower(s: &[u8]) -> (r: Vec<u8>)
    ensures
        r@ == s@.map_values(|b: u8| lower_byte(b)),
{
    let mut r: Vec<u8> = Vec::new();
    let n = s.len();
    for k in 0..n
        invariant
            n == s@.len(),
            r@ == s@.take(k as int).map_values(|b: u8| lower_byte(b)),
    {
        let b = s[k];
        let c = if 65 <= b && b <= 90 {
            b + 32
        } else {
            b
        };
        r.push(c);
        assert(s@.take(k + 1).map_values(|b: u8| lower_byte(b)) =~= s@.take(k as int).map_values(
            |b: u8| lower_byte(b),
        ).push(lower_byte(b)));
    }
    assert(s@.take(n as int) =~= s@);
    r
}

/// Lua's `string.upper`: ASCII letters raised, other bytes kept.
pub fn string_upper(s: &[u8]) -> (r: Vec<u8>)
    ensures
        r@ == s@.map_values(|b: u8| upper_byte(b)),
{
    let mut r: Vec<u8> = Vec::new();
    let n = s.len();
    for k in 0..n
        invariant
            n == s@.len(),
            r@ == s@.take(k as int).map_values(|b: u8| upper_byte(b)),
    {
        let b = s[k];
        let c = if 97 <= b && b <= 122 {
            b - 32
        } else {
            b
        };
        r.push(c);
        assert(s@.take(k + 1).map_values(|b: u8| upper_byte(b)) =~= s@.take(k as int).map_values(
            |b: u8| upper_byte(b),
        ).push(upper_byte(b)));
    }
    assert(s@.take(n as int) =~= s@);
    r
}

/// Lua's `string.reverse`: the bytes in reverse order.
pub fn string_reverse(s: &[u8]) -> (r: Vec<u8>)
    ensures
        r@ == s@.reverse(),
{
    let mut r: Vec<u8> = Vec::new();
    let n = s.len();
    let mut k = n;
    while k > 0
        invariant
            n == s@.len(),
            k <= n,
            r@ == s@.subrange(k as int, n as int).reverse(),
        decreases k,
    {
        k = k - 1;
        r.push(s[k]);
        assert(s@.subrange(k as int, n as int).reverse() =~= s@.subrange(k + 1, n as int).reverse().push(s@[k as int]));
    }
    assert(s@.subrange(0, n as int) =~= s@);
    r
}

} // verus!

verus! {

/// Position 0 stands for position 1; a negative position counts from the end
/// and clamps to the start; a positive position is not clamped to the length.
pub proof fn lemma_rel_pos_index_aliases(len: usize, pos: i64)
    ensures
        rel_pos_index(0, len as int) == rel_pos_index(1, len as int),
        rel_pos_index(-1, len as int) == sat_sub(len as int, 1),
        pos < 0 && -pos >= len ==> rel_pos_index(pos as int, len as int) == 0,
        pos > 0 && pos - 1 <= usize::MAX ==> rel_pos_index(pos as int, len as int) == pos - 1,
{
}

} // verus!

verus! {

/// A negative position `-k` with `k` at most the length stands for the `k`-th
/// byte from the end.
pub proof fn lemma_rel_pos_from_end(len: usize, k: i64)
    requires
        1 <= k <= len,
    ensures
        rel_pos_index(-k as int, len as int) == len - k,
{
}

/// The bytes that make a pattern special are exactly those of `^$*+?.([%-`:
/// a pattern without them (such as `)` or `]`) is searched plainly.
pub proof fn lemma_special_bytes_are_magic_characters(b: u8)
    ensures
        is_special_byte(b) <==> "^$*+?.([%-"@.contains(b as char),
{
    reveal_strlit("^$*+?.([%-");
    let magic = "^$*+?.([%-"@;
    assert(magic =~= seq!['^', '$', '*', '+', '?', '.', '(', '[', '%', '-']);
    if is_special_byte(b) {
        if b == 94 { assert(magic[0] == b as char); }
        else if b == 36 { assert(magic[1] == b as char); }
        else if b == 42 { assert(magic[2] == b as char); }
        else if b == 43 { assert(magic[3] == b as char); }
        else if b == 63 { assert(magic[4] == b as char); }
        else if b == 46 { assert(magic[5] == b as char); }
        else if b == 40 { assert(magic[6] == b as char); }
        else if b == 91 { assert(magic[7] == b as char); }
        else if b == 37 { assert(magic[8] == b as char); }
        else { assert(magic[9] == b as char); }
    }
    if magic.contains(b as char) {
        let i = choose|i: int| 0 <= i < magic.len() && magic[i] == b as char;
        assert(0 <= i < 10);
    }
}

/// A pattern none of whose bytes is one of `^$*+?.([%-` is not refused by
/// `string.find`: it is searched for plainly.
pub proof fn lemma_plain_pattern_not_special(pattern: Seq<u8>)
    requires
        forall|i: int| 0 <= i < pattern.len() ==> !"^$*+?.([%-"@.contains(#[trigger] pattern[i] as char),
    ensures
        !exists|i: int| 0 <= i < pattern.len() && is_special_byte(#[trigger] pattern[i]),
{
    assert forall|i: int| 0 <= i < pattern.len() implies !is_special_byte(#[trigger] pattern[i]) by {
        lemma_special_bytes_are_magic_characters(pattern[i]);
    }
}

/// For positions `1 <= i <= j <= len`, `string.sub(s, i, j)` is the bytes
/// from the `i`-th to the `j`-th inclusive: `j - i + 1` bytes, starting with
/// byte `i` and ending with byte `j`.
pub proof fn lemma_sub_inner_range(s: Seq<u8>, i: i64, j: i64)
    requires
        s.len() <= usize::MAX,
        1 <= i <= j <= s.len(),
    ensures
        sub_bytes(s, i, Some(j)) == Some(s.subrange(i - 1, j as int)),
        sub_bytes(s, i, Some(j)) matches Some(b) && b.len() == j - i + 1 && b[0] == s[i - 1]
            && b[j - i] == s[j - 1],
{
}

/// `string.sub(s, -k)` is the last `k` bytes of `s`; in particular
/// `string.sub(s, -1)` is the last byte.
pub proof fn lemma_sub_suffix(s: Seq<u8>, k: i64)
    requires
        s.len() <= usize::MAX,
        1 <= k <= s.len(),
    ensures
        sub_bytes(s, (-k) as i64, None) == Some(s.subrange(s.len() - k, s.len() as int)),
        k == 1 ==> sub_bytes(s, -1i64, None) == Some(seq![s.last()]),
{
    if k == 1 {
        assert(s.subrange(s.len() - 1, s.len() as int) =~= seq![s.last()]);
    }
}

/// `string.sub(s, 1, -1)` is the whole string, and `string.byte(s)` of a
/// nonempty string is its first byte.
pub proof fn lemma_sub_whole_and_first(s: Seq<u8>)
    requires
        s.len() <= usize::MAX,
    ensures
        sub_bytes(s, 1, Some(-1i64)) == Some(s),
        s.len() > 0 ==> sub_bytes(s, 1, Some(1)) == Some(seq![s[0]]),
{
    if s.len() > 0 {
        assert(s.subrange(0, s.len() as int) =~= s);
        assert(s.subrange(0, 1) =~= seq![s[0]]);
    } else {
        assert(s =~= Seq::<u8>::empty());
    }
}

/// Lowering changes exactly the upper-case ASCII letters, each to the same
/// letter in lower case; raising changes exactly the lower-case ones, each to
/// the same letter in upper case.
pub proof fn lemma_ascii_case(b: u8)
    ensures
        'A' as u8 <= b <= 'Z' as u8 ==> lower_byte(b) == b + ('a' as u8 - 'A' as u8) && 'a' as u8
            <= lower_byte(b) <= 'z' as u8,
        'a' as u8 <= b <= 'z' as u8 ==> upper_byte(b) == b - ('a' as u8 - 'A' as u8) && 'A' as u8
            <= upper_byte(b) <= 'Z' as u8,
        !('A' as u8 <= b <= 'Z' as u8) ==> lower_byte(b) == b,
        !('a' as u8 <= b <= 'z' as u8) ==> upper_byte(b) == b,
        upper_byte(lower_byte(b)) == upper_byte(b),
        lower_byte(upper_byte(b)) == lower_byte(b),
{
}

/// A string with each byte lowered.
pub open spec fn lowered(s: Seq<u8>) -> Seq<u8> {
    s.map_values(|b: u8| lower_byte(b))
}

/// A string with each byte raised.
pub open spec fn raised(s: Seq<u8>) -> Seq<u8> {
    s.map_values(|b: u8| upper_byte(b))
}

/// Lowering a string changes each upper-case ASCII letter to lower case and
/// keeps every other byte; it keeps the length.
pub proof fn lemma_lower_string(s: Seq<u8>)
    ensures
        lowered(s) == s.map_values(|b: u8| lower_byte(b)),
        lowered(s).len() == s.len(),
        forall|i: int|
            0 <= i < s.len() ==> {
                let c = #[trigger] lowered(s)[i];
                &&& ('A' as u8 <= s[i] <= 'Z' as u8 ==> c == s[i] + 32)
                &&& (!('A' as u8 <= s[i] <= 'Z' as u8) ==> c == s[i])
                &&& !('A' as u8 <= c <= 'Z' as u8)
            },
{
}

/// Raising a string changes each lower-case ASCII letter to upper case and
/// keeps every other byte; it keeps the length.
pub proof fn lemma_upper_string(s: Seq<u8>)
    ensures
        raised(s) == s.map_values(|b: u8| upper_byte(b)),
        raised(s).len() == s.len(),
        forall|i: int|
            0 <= i < s.len() ==> {
                let c = #[trigger] raised(s)[i];
                &&& ('a' as u8 <= s[i] <= 'z' as u8 ==> c == s[i] - 32)
                &&& (!('a' as u8 <= s[i] <= 'z' as u8) ==> c == s[i])
                &&& !('a' as u8 <= c <= 'z' as u8)
            },
{
}

} // verus!

verus! {

/// A plain `string.find(s, pattern)` from the start finds the leftmost
/// occurrence of a nonempty pattern: the bytes between the positions it gives
/// are the pattern, and the pattern occurs at no earlier position. When the
/// pattern occurs nowhere, nothing is found.
pub proof fn lemma_find_leftmost(s: Seq<u8>, pattern: Seq<u8>, q: int)
    requires
        s.len() <= usize::MAX,
        pattern.len() > 0,
    ensures
        occurs_at(s, q, pattern) ==> (find_plain(s, pattern, 1) matches Some((a, b)) && 1 <= a
            <= q + 1 && b == a + pattern.len() - 1 && s.subrange(a - 1, b) == pattern),
        (forall|p: int| !#[trigger] occurs_at(s, p, pattern)) ==> find_plain(s, pattern, 1)
            is None,
        find_plain(s, pattern, 1) matches Some((a, b)) ==> forall|p: int|
            0 <= p < a - 1 ==> !#[trigger] occurs_at(s, p, pattern),
{
    if occurs_at(s, q, pattern) {
        assert(0 <= q && s.len() - 0 >= pattern.len());
        assert(exists|p: int| 0 <= p && #[trigger] occurs_at(s, p, pattern));
        let c = choose|c: int|
            0 <= c && occurs_at(s, c, pattern) && forall|p: int|
                0 <= p < c ==> !occurs_at(s, p, pattern);
        assert(exists|c: int|
            0 <= c && occurs_at(s, c, pattern) && forall|p: int|
                0 <= p < c ==> !occurs_at(s, p, pattern)) by {
            lemma_least_occurrence(s, pattern, q);
        }
        assert(c <= q) by {
            if c > q {
                assert(!occurs_at(s, q, pattern));
            }
        }
    }
    if find_plain(s, pattern, 1) is Some && s.len() > 0 && s.len() >= pattern.len() {
        if exists|p: int| 0 <= p && #[trigger] occurs_at(s, p, pattern) {
            let p0 = choose|p: int| 0 <= p && #[trigger] occurs_at(s, p, pattern);
            lemma_least_occurrence(s, pattern, p0);
        }
    }
}

/// If the pattern occurs at `q`, it has a leftmost occurrence.
proof fn lemma_least_occurrence(s: Seq<u8>, pattern: Seq<u8>, q: int)
    requires
        0 <= q,
        occurs_at(s, q, pattern),
    ensures
        exists|c: int|
            0 <= c && occurs_at(s, c, pattern) && forall|p: int|
                0 <= p < c ==> !occurs_at(s, p, pattern),
    decreases q,
{
    if exists|p: int| 0 <= p < q && occurs_at(s, p, pattern) {
        let p = choose|p: int| 0 <= p < q && occurs_at(s, p, pattern);
        lemma_least_occurrence(s, pattern, p);
    } else {
        assert(0 <= q && occurs_at(s, q, pattern) && forall|p: int|
            0 <= p < q ==> !occurs_at(s, p, pattern));
    }
}

} // verus!
