//! Verified text primitives the descriptor codec and the parsers build on:
//! first-occurrence substring search, trimming, splitting, a decimal codec,
//! and ASCII-case-insensitive search. Specifications are stated over
//! `Seq<char>` views; every executable function is proved against them.

use vstd::prelude::*;

verus! {

use vstd::string::StrSliceExecFns;
use vstd::string::StringExecFns;

/// Pattern `p` occurs in `s` at position `i`.
pub open spec fn occurs_at(s: Seq<char>, p: Seq<char>, i: int) -> bool {
    0 <= i && i + p.len() <= s.len() && s.subrange(i, i + p.len()) == p
}

/// Pattern `p` occurs somewhere in `s`.
pub open spec fn has_sub(s: Seq<char>, p: Seq<char>) -> bool {
    exists|i: int| occurs_at(s, p, i)
}

/// Least index at or after `from` and below `bound` satisfying `pred`.
pub open spec fn first_index(bound: int, from: int, pred: spec_fn(int) -> bool) -> Option<int>
    decreases bound - from when from <= bound
{
    if from >= bound {
        None
    } else if pred(from) {
        Some(from)
    } else {
        first_index(bound, from + 1, pred)
    }
}

pub proof fn lemma_first_index_props(bound: int, from: int, pred: spec_fn(int) -> bool)
    requires
        0 <= from <= bound,
    ensures
        (match first_index(bound, from, pred) {
            Some(i) => from <= i < bound && pred(i) && (forall|j: int|
                from <= j < i ==> !(#[trigger] pred(j))),
            None => forall|j: int| from <= j < bound ==> !(#[trigger] pred(j)),
        }),
    decreases bound - from,
{
    if from < bound && !pred(from) {
        lemma_first_index_props(bound, from + 1, pred);
    }
}

pub proof fn lemma_first_index_is(bound: int, from: int, pred: spec_fn(int) -> bool, i: int)
    requires
        0 <= from <= i < bound,
        pred(i),
        forall|j: int| from <= j < i ==> !(#[trigger] pred(j)),
    ensures
        first_index(bound, from, pred) == Some(i),
    decreases i - from,
{
    if from < i {
        lemma_first_index_is(bound, from + 1, pred, i);
    }
}

/// The occurrence predicate of a fixed pattern, named so that definitions
/// and lemmas speak of one and the same function value.
pub open spec fn occ_pred(s: Seq<char>, p: Seq<char>) -> spec_fn(int) -> bool {
    |i: int| occurs_at(s, p, i)
}

/// First occurrence of `p` in `s` at or after `from`.
pub open spec fn find_sub_from(s: Seq<char>, p: Seq<char>, from: int) -> Option<int> {
    let bound = s.len() - p.len() + 1;
    if from > bound {
        None
    } else {
        first_index(bound, from, occ_pred(s, p))
    }
}

pub proof fn lemma_find_sub_from_props(s: Seq<char>, p: Seq<char>, from: int)
    requires
        0 <= from,
    ensures
        (match find_sub_from(s, p, from) {
            Some(i) => from <= i && occurs_at(s, p, i) && (forall|j: int|
                from <= j < i ==> !occurs_at(s, p, j)),
            None => forall|j: int| from <= j ==> !occurs_at(s, p, j),
        }),
{
    let bound = s.len() - p.len() + 1;
    if from <= bound {
        lemma_first_index_props(bound, from, occ_pred(s, p));
        assert(forall|j: int| #[trigger] occurs_at(s, p, j) ==> occ_pred(s, p)(j));
    }
}

pub proof fn lemma_find_sub_from_is(s: Seq<char>, p: Seq<char>, from: int, i: int)
    requires
        0 <= from <= i,
        occurs_at(s, p, i),
        forall|j: int| from <= j < i ==> !occurs_at(s, p, j),
    ensures
        find_sub_from(s, p, from) == Some(i),
{
    let bound = s.len() - p.len() + 1;
    assert(occ_pred(s, p)(i));
    assert(forall|j: int| from <= j < i ==> !(#[trigger] occ_pred(s, p)(j)));
    lemma_first_index_is(bound, from, occ_pred(s, p), i);
}

/// Every position of an occurrence agrees with the pattern character-wise.
pub proof fn lemma_occurs_at_index(s: Seq<char>, p: Seq<char>, i: int, k: int)
    requires
        occurs_at(s, p, i),
        0 <= k < p.len(),
    ensures
        s[i + k] == p[k],
{
    assert(s.subrange(i, i + p.len())[k] == s[i + k]);
}

/// Does `p` occur in `s` starting exactly at `i`? Checked character by character.
pub fn match_at(s: &str, p: &str, i: usize) -> (r: bool)
    requires
        i + p@.len() <= s@.len(),
    ensures
        r == occurs_at(s@, p@, i as int),
{
    let n = s.unicode_len();
    let m = p.unicode_len();
    let mut k: usize = 0;
    while k < m
        invariant
            n == s@.len(),
            m == p@.len(),
            i + m <= n,
            0 <= k <= m,
            forall|j: int| 0 <= j < k ==> s@[i + j] == p@[j],
        decreases m - k,
    {
        if s.get_char(i + k) != p.get_char(k) {
            proof {
                if occurs_at(s@, p@, i as int) {
                    lemma_occurs_at_index(s@, p@, i as int, k as int);
                }
            }
            return false;
        }
        k += 1;
    }
    proof {
        assert(s@.subrange(i as int, i + p@.len()) =~= p@);
    }
    true
}

/// First occurrence of `p` in `s` at or after `from`, as an index in characters.
pub fn find_sub_at(s: &str, p: &str, from: usize) -> (r: Option<usize>)
    requires
        from <= s@.len(),
    ensures
        (match r {
            Some(i) => find_sub_from(s@, p@, from as int) == Some(i as int),
            None => find_sub_from(s@, p@, from as int) is None,
        }),
{
    let n = s.unicode_len();
    let m = p.unicode_len();
    if m == 0 {
        proof {
            assert(s@.subrange(from as int, from as int) =~= p@);
            assert(occurs_at(s@, p@, from as int));
            lemma_find_sub_from_is(s@, p@, from as int, from as int);
        }
        return Some(from);
    }
    if m > n || from > n - m {
        proof {
            lemma_find_sub_from_props(s@, p@, from as int);
            if find_sub_from(s@, p@, from as int) is Some {
                let i = find_sub_from(s@, p@, from as int)->Some_0;
                assert(occurs_at(s@, p@, i));
            }
        }
        return None;
    }
    let bound = n - m + 1;
    let mut i = from;
    while i < bound
        invariant
            n == s@.len(),
            m == p@.len(),
            1 <= m <= n,
            bound == n - m + 1,
            from <= i <= bound,
            forall|j: int| from <= j < i ==> !occurs_at(s@, p@, j),
        decreases bound - i,
    {
        if match_at(s, p, i) {
            proof {
                lemma_find_sub_from_is(s@, p@, from as int, i as int);
            }
            return Some(i);
        }
        i += 1;
    }
    proof {
        lemma_find_sub_from_props(s@, p@, from as int);
        if find_sub_from(s@, p@, from as int) is Some {
            let w = find_sub_from(s@, p@, from as int)->Some_0;
            assert(occurs_at(s@, p@, w));
            assert(w + p@.len() <= s@.len());
            assert(from <= w < bound);
        }
    }
    None
}

/// Whether `p` occurs anywhere in `s`.
pub fn contains_sub(s: &str, p: &str) -> (r: bool)
    ensures
        r == has_sub(s@, p@),
{
    let r = find_sub_at(s, p, 0);
    proof {
        lemma_find_sub_from_props(s@, p@, 0);
        if r is Some {
            let i = find_sub_from(s@, p@, 0)->Some_0;
            assert(occurs_at(s@, p@, i));
        } else {
            if has_sub(s@, p@) {
                let i = choose|i: int| occurs_at(s@, p@, i);
                assert(!occurs_at(s@, p@, i));
            }
        }
    }
    r.is_some()
}

/// `s` starts with `p`.
pub open spec fn starts_with_spec(s: Seq<char>, p: Seq<char>) -> bool {
    occurs_at(s, p, 0)
}

pub fn starts_with(s: &str, p: &str) -> (r: bool)
    ensures
        r == starts_with_spec(s@, p@),
{
    let n = s.unicode_len();
    let m = p.unicode_len();
    if m > n {
        return false;
    }
    match_at(s, p, 0)
}

/// The characters treated as whitespace by trimming and field splitting.
pub open spec fn is_space_char(c: char) -> bool {
    c == ' ' || c == '\t' || c == '\n' || c == '\r'
}

pub fn is_space(c: char) -> (r: bool)
    ensures
        r == is_space_char(c),
{
    c == ' ' || c == '\t' || c == '\n' || c == '\r'
}

pub open spec fn trim_start_spec(s: Seq<char>) -> Seq<char>
    decreases s.len(),
{
    if s.len() > 0 && is_space_char(s[0]) {
        trim_start_spec(s.subrange(1, s.len() as int))
    } else {
        s
    }
}

pub open spec fn trim_end_spec(s: Seq<char>) -> Seq<char>
    decreases s.len(),
{
    if s.len() > 0 && is_space_char(s[s.len() - 1]) {
        trim_end_spec(s.subrange(0, s.len() - 1))
    } else {
        s
    }
}

/// Leading and trailing whitespace removed.
pub open spec fn trim_spec(s: Seq<char>) -> Seq<char> {
    trim_end_spec(trim_start_spec(s))
}

proof fn lemma_trim_start_range(s: Seq<char>, a: int)
    requires
        0 <= a <= s.len(),
        forall|j: int| 0 <= j < a ==> is_space_char(s[j]),
        a < s.len() ==> !is_space_char(s[a]),
    ensures
        trim_start_spec(s) == s.subrange(a, s.len() as int),
    decreases a,
{
    if a == 0 {
        assert(s.subrange(0, s.len() as int) =~= s);
    } else {
        let t = s.subrange(1, s.len() as int);
        lemma_trim_start_range(t, a - 1);
        assert(t.subrange(a - 1, t.len() as int) =~= s.subrange(a, s.len() as int));
    }
}

proof fn lemma_trim_end_range(s: Seq<char>, b: int)
    requires
        0 <= b <= s.len(),
        forall|j: int| b <= j < s.len() ==> is_space_char(s[j]),
        b > 0 ==> !is_space_char(s[b - 1]),
    ensures
        trim_end_spec(s) == s.subrange(0, b),
    decreases s.len() - b,
{
    if b == s.len() {
        assert(s.subrange(0, s.len() as int) =~= s);
    } else {
        let t = s.subrange(0, s.len() - 1);
        lemma_trim_end_range(t, b);
        assert(t.subrange(0, b) =~= s.subrange(0, b));
    }
}

/// If a sequence neither starts nor ends with whitespace, trimming keeps it.
pub proof fn lemma_trim_id(s: Seq<char>)
    requires
        s.len() > 0 ==> !is_space_char(s[0]),
        s.len() > 0 ==> !is_space_char(s[s.len() - 1]),
    ensures
        trim_spec(s) == s,
{
    lemma_trim_start_range(s, 0);
    lemma_trim_end_range(s, s.len() as int);
    assert(s.subrange(0, s.len() as int) =~= s);
}

/// Copy of `s` with leading and trailing whitespace removed.
pub fn trim_str(s: &str) -> (r: String)
    ensures
        r@ == trim_spec(s@),
{
    let n = s.unicode_len();
    let mut a: usize = 0;
    while a < n && is_space(s.get_char(a))
        invariant
            n == s@.len(),
            0 <= a <= n,
            forall|j: int| 0 <= j < a ==> is_space_char(s@[j]),
        decreases n - a,
    {
        a += 1;
    }
    proof {
        lemma_trim_start_range(s@, a as int);
    }
    let ghost t = trim_start_spec(s@);
    let mut b: usize = n;
    while b > a && is_space(s.get_char(b - 1))
        invariant
            n == s@.len(),
            0 <= a <= b <= n,
            t == s@.subrange(a as int, n as int),
            forall|j: int| b <= j < n ==> is_space_char(s@[j]),
        decreases b,
    {
        b -= 1;
    }
    proof {
        assert(forall|j: int| b - a <= j < t.len() ==> is_space_char(t[j]));
        if b > a {
            assert(t[b - a - 1] == s@[b - 1]);
        }
        lemma_trim_end_range(t, b - a);
        assert(t.subrange(0, b - a) =~= s@.subrange(a as int, b as int));
    }
    let piece = s.substring_char(a, b);
    String::from_str(piece)
}

/// Digit in the ASCII decimal range.
pub open spec fn is_digit_char(c: char) -> bool {
    48 <= c as int <= 57
}

pub open spec fn digit_val(c: char) -> int {
    c as int - 48
}

pub open spec fn all_digits(s: Seq<char>) -> bool {
    forall|i: int| 0 <= i < s.len() ==> is_digit_char(s[i])
}

/// Value of a digit string read as a decimal number.
pub open spec fn dec_val(s: Seq<char>) -> int
    decreases s.len(),
{
    if s.len() == 0 {
        0
    } else {
        dec_val(s.subrange(0, s.len() - 1)) * 10 + digit_val(s[s.len() - 1])
    }
}

pub proof fn lemma_dec_val_nonneg(s: Seq<char>)
    requires
        all_digits(s),
    ensures
        dec_val(s) >= 0,
    decreases s.len(),
{
    if s.len() > 0 {
        let t = s.subrange(0, s.len() - 1);
        assert(all_digits(t));
        lemma_dec_val_nonneg(t);
    }
}

proof fn lemma_dec_val_step(s: Seq<char>, k: int)
    requires
        0 <= k < s.len(),
    ensures
        dec_val(s.subrange(0, k + 1)) == dec_val(s.subrange(0, k)) * 10 + digit_val(s[k]),
{
    let u = s.subrange(0, k + 1);
    assert(u.subrange(0, k) =~= s.subrange(0, k));
    assert(u[u.len() - 1] == s[k]);
}

/// Extending a digit string cannot decrease its value.
proof fn lemma_dec_prefix_bound(s: Seq<char>, k: int)
    requires
        0 <= k <= s.len(),
        all_digits(s),
    ensures
        dec_val(s) >= dec_val(s.subrange(0, k)),
    decreases s.len() - k,
{
    if k < s.len() {
        lemma_dec_val_step(s, k);
        let p = s.subrange(0, k);
        assert(all_digits(p));
        lemma_dec_val_nonneg(p);
        lemma_dec_prefix_bound(s, k + 1);
    } else {
        assert(s.subrange(0, k) =~= s);
    }
}

/// Parse a non-empty, all-digit string into a `u64`; rejects anything else
/// and any value that does not fit.
pub fn parse_u64(s: &str) -> (r: Option<u64>)
    ensures
        (r is Some) <==> (s@.len() > 0 && all_digits(s@) && dec_val(s@) <= u64::MAX),
        r is Some ==> r->Some_0 as int == dec_val(s@),
{
    let n = s.unicode_len();
    if n == 0 {
        return None;
    }
    let mut acc: u64 = 0;
    let mut k: usize = 0;
    while k < n
        invariant
            n == s@.len(),
            0 <= k <= n,
            forall|i: int| 0 <= i < k ==> is_digit_char(s@[i]),
            acc as int == dec_val(s@.subrange(0, k as int)),
        decreases n - k,
    {
        let c = s.get_char(k);
        let code = c as u32;
        if code < 48 || code > 57 {
            proof {
                assert(!is_digit_char(s@[k as int]));
            }
            return None;
        }
        let d = (code - 48) as u64;
        proof {
            lemma_dec_val_step(s@, k as int);
        }
        if acc > (u64::MAX - d) / 10 {
            proof {
                if all_digits(s@) {
                    lemma_dec_prefix_bound(s@, k as int + 1);
                }
            }
            return None;
        }
        acc = acc * 10 + d;
        k += 1;
    }
    proof {
        assert(s@.subrange(0, n as int) =~= s@);
    }
    Some(acc)
}

/// The canonical decimal rendering of a non-negative number.
pub open spec fn dec_str(n: int) -> Seq<char>
    decreases n when n >= 0
{
    if n < 10 {
        seq![((48 + n) as u8) as char]
    } else {
        dec_str(n / 10).push(((48 + n % 10) as u8) as char)
    }
}

pub proof fn lemma_dec_str_digits(n: int)
    requires
        n >= 0,
    ensures
        all_digits(dec_str(n)),
        dec_str(n).len() > 0,
    decreases n,
{
    if n >= 10 {
        lemma_dec_str_digits(n / 10);
    }
}

/// Rendering then reading a number gives the number back.
pub proof fn lemma_dec_str_val(n: int)
    requires
        n >= 0,
    ensures
        dec_val(dec_str(n)) == n,
    decreases n,
{
    if n < 10 {
        let c = ((48 + n) as u8) as char;
        assert(c as int == 48 + n);
        let s = dec_str(n);
        assert(s =~= seq![c]);
        assert(s.len() == 1);
        assert(s.subrange(0, 0) =~= Seq::<char>::empty());
        assert(dec_val(s) == dec_val(s.subrange(0, 0)) * 10 + digit_val(s[0]));
        assert(dec_val(s) == n);
    } else {
        lemma_dec_str_val(n / 10);
        let c = ((48 + n % 10) as u8) as char;
        assert(c as int == 48 + n % 10);
        let s = dec_str(n);
        let h = dec_str(n / 10);
        assert(s =~= h.push(c));
        assert(s.subrange(0, s.len() - 1) =~= h);
        assert(s[s.len() - 1] == c);
        assert(dec_val(s) == dec_val(h) * 10 + digit_val(c));
        assert(dec_val(s) == (n / 10) * 10 + n % 10);
        assert(n == (n / 10) * 10 + n % 10);
    }
}

fn digit_str(d: u64) -> (r: &'static str)
    requires
        d < 10,
    ensures
        r@ =~= seq![((48 + d) as u8) as char],
{
    proof {
        reveal_strlit("0");
        reveal_strlit("1");
        reveal_strlit("2");
        reveal_strlit("3");
        reveal_strlit("4");
        reveal_strlit("5");
        reveal_strlit("6");
        reveal_strlit("7");
        reveal_strlit("8");
        reveal_strlit("9");
    }
    match d {
        0 => "0",
        1 => "1",
        2 => "2",
        3 => "3",
        4 => "4",
        5 => "5",
        6 => "6",
        7 => "7",
        8 => "8",
        _ => "9",
    }
}

/// Decimal rendering of a `u64`.
pub fn u64_to_string(n: u64) -> (r: String)
    ensures
        r@ == dec_str(n as int),
    decreases n,
{
    if n < 10 {
        String::from_str(digit_str(n))
    } else {
        let mut s = u64_to_string(n / 10);
        s.append(digit_str(n % 10));
        proof {
            assert(dec_str((n / 10) as int).push(((48 + n % 10) as u8) as char) =~= dec_str(
                (n / 10) as int,
            ) + seq![((48 + n % 10) as u8) as char]);
        }
        s
    }
}

/// Character-for-character equality of two string slices.
pub fn eq_str(a: &str, b: &str) -> (r: bool)
    ensures
        r == (a@ == b@),
{
    let n = a.unicode_len();
    if n != b.unicode_len() {
        return false;
    }
    let r = match_at(a, b, 0);
    proof {
        if r {
            assert(a@.subrange(0, b@.len() as int) =~= a@);
        } else {
            if a@ == b@ {
                assert(a@.subrange(0, b@.len() as int) =~= b@);
            }
        }
    }
    r
}

/// ASCII lowering of a single character code.
pub open spec fn lower_code(x: int) -> int {
    if 65 <= x <= 90 {
        x + 32
    } else {
        x
    }
}

/// Pattern `p` occurs at `i` in `s` up to ASCII case.
pub open spec fn occurs_at_ci(s: Seq<char>, p: Seq<char>, i: int) -> bool {
    &&& 0 <= i
    &&& i + p.len() <= s.len()
    &&& forall|k: int| 0 <= k < p.len() ==> lower_code(s[i + k] as int) == lower_code(p[k] as int)
}

/// Pattern `p` occurs somewhere in `s` up to ASCII case.
pub open spec fn has_sub_ci(s: Seq<char>, p: Seq<char>) -> bool {
    exists|i: int| occurs_at_ci(s, p, i)
}

fn lower_u32(x: u32) -> (r: u32)
    ensures
        r as int == lower_code(x as int),
{
    if 65 <= x && x <= 90 {
        x + 32
    } else {
        x
    }
}

fn match_at_ci(s: &str, p: &str, i: usize) -> (r: bool)
    requires
        i + p@.len() <= s@.len(),
    ensures
        r == occurs_at_ci(s@, p@, i as int),
{
    let n = s.unicode_len();
    let m = p.unicode_len();
    let mut k: usize = 0;
    while k < m
        invariant
            n == s@.len(),
            m == p@.len(),
            i + m <= n,
            0 <= k <= m,
            forall|j: int| 0 <= j < k ==> lower_code(s@[i + j] as int) == lower_code(
                p@[j] as int,
            ),
        decreases m - k,
    {
        if lower_u32(s.get_char(i + k) as u32) != lower_u32(p.get_char(k) as u32) {
            return false;
        }
        k += 1;
    }
    true
}

/// Whether `p` occurs anywhere in `s`, comparing ASCII letters without case.
pub fn contains_sub_ci(s: &str, p: &str) -> (r: bool)
    ensures
        r == has_sub_ci(s@, p@),
{
    let n = s.unicode_len();
    let m = p.unicode_len();
    if m == 0 {
        proof {
            assert(occurs_at_ci(s@, p@, 0));
        }
        return true;
    }
    if m > n {
        proof {
            if has_sub_ci(s@, p@) {
                let i = choose|i: int| occurs_at_ci(s@, p@, i);
            }
        }
        return false;
    }
    let bound = n - m + 1;
    let mut i: usize = 0;
    while i < bound
        invariant
            n == s@.len(),
            m == p@.len(),
            1 <= m <= n,
            bound == n - m + 1,
            0 <= i <= bound,
            forall|j: int| 0 <= j < i ==> !occurs_at_ci(s@, p@, j),
        decreases bound - i,
    {
        if match_at_ci(s, p, i) {
            return true;
        }
        i += 1;
    }
    proof {
        if has_sub_ci(s@, p@) {
            let w = choose|w: int| occurs_at_ci(s@, p@, w);
            assert(w + p@.len() <= s@.len());
            assert(!occurs_at_ci(s@, p@, w));
        }
    }
    false
}

/// Positions holding whitespace, as a named predicate.
pub open spec fn space_pred(s: Seq<char>) -> spec_fn(int) -> bool {
    |i: int| is_space_char(s[i])
}

/// Positions holding the character `c`, as a named predicate.
pub open spec fn char_pred(s: Seq<char>, c: char) -> spec_fn(int) -> bool {
    |i: int| s[i] == c
}

/// The whitespace-separated fields of a line, in order, each non-empty.
pub open spec fn fields_spec(s: Seq<char>) -> Seq<Seq<char>>
    decreases s.len(),
{
    if s.len() == 0 {
        Seq::empty()
    } else if is_space_char(s[0]) {
        fields_spec(s.subrange(1, s.len() as int))
    } else {
        let end = (match first_index(s.len() as int, 0, space_pred(s)) {
            Some(e) => e,
            None => s.len() as int,
        });
        if 1 <= end <= s.len() {
            seq![s.subrange(0, end)] + fields_spec(s.subrange(end, s.len() as int))
        } else {
            seq![s]
        }
    }
}

/// Split a line into its whitespace-separated fields.
pub fn fields(s: &str) -> (r: Vec<String>)
    ensures
        r.deep_view() == fields_spec(s@),
    decreases s@.len(),
{
    let n = s.unicode_len();
    if n == 0 {
        let r: Vec<String> = Vec::new();
        proof {
            assert(r.deep_view() =~= fields_spec(s@));
        }
        return r;
    }
    if is_space(s.get_char(0)) {
        let rest = s.substring_char(1, n);
        let r = fields(rest);
        return r;
    }
    let mut end: usize = 1;
    while end < n && !is_space(s.get_char(end))
        invariant
            n == s@.len(),
            1 <= end <= n,
            !is_space_char(s@[0]),
            forall|j: int| 0 <= j < end ==> !is_space_char(s@[j]),
        decreases n - end,
    {
        end += 1;
    }
    proof {
        if end < n {
            assert(space_pred(s@)(end as int));
            assert(forall|j: int| 0 <= j < end ==> !(#[trigger] space_pred(s@)(j)));
            lemma_first_index_is(n as int, 0, space_pred(s@), end as int);
        } else {
            lemma_first_index_props(n as int, 0, space_pred(s@));
            if first_index(n as int, 0, space_pred(s@)) is Some {
                let w = first_index(n as int, 0, space_pred(s@))->Some_0;
                assert(space_pred(s@)(w));
                assert(is_space_char(s@[w]));
            }
        }
    }
    let head = String::from_str(s.substring_char(0, end));
    let tail = s.substring_char(end, n);
    let mut r = fields(tail);
    let ghost gr = r.deep_view();
    r.insert(0, head);
    proof {
        assert(r.deep_view() =~= seq![s@.subrange(0, end as int)] + gr);
        assert(r.deep_view() =~= fields_spec(s@));
    }
    r
}

/// The pieces of `s` between occurrences of the separator `c`.
pub open spec fn split_char_spec(s: Seq<char>, c: char) -> Seq<Seq<char>>
    decreases s.len(),
{
    match first_index(s.len() as int, 0, char_pred(s, c)) {
        Some(e) => {
            if 0 <= e < s.len() {
                seq![s.subrange(0, e)] + split_char_spec(s.subrange(e + 1, s.len() as int), c)
            } else {
                seq![s]
            }
        },
        None => seq![s],
    }
}

/// Split `s` on every occurrence of `c`.
pub fn split_char(s: &str, c: char) -> (r: Vec<String>)
    ensures
        r.deep_view() == split_char_spec(s@, c),
    decreases s@.len(),
{
    let n = s.unicode_len();
    let mut e: usize = 0;
    while e < n && s.get_char(e) != c
        invariant
            n == s@.len(),
            0 <= e <= n,
            forall|j: int| 0 <= j < e ==> s@[j] != c,
        decreases n - e,
    {
        e += 1;
    }
    proof {
        if e < n {
            assert(char_pred(s@, c)(e as int));
            assert(forall|j: int| 0 <= j < e ==> !(#[trigger] char_pred(s@, c)(j)));
            lemma_first_index_is(n as int, 0, char_pred(s@, c), e as int);
        } else {
            lemma_first_index_props(n as int, 0, char_pred(s@, c));
            if first_index(n as int, 0, char_pred(s@, c)) is Some {
                let w = first_index(n as int, 0, char_pred(s@, c))->Some_0;
                assert(char_pred(s@, c)(w));
                assert(s@[w] == c);
            }
        }
    }
    if e == n {
        let mut r: Vec<String> = Vec::new();
        r.push(String::from_str(s));
        proof {
            assert(r.deep_view() =~= split_char_spec(s@, c));
        }
        return r;
    }
    let head = String::from_str(s.substring_char(0, e));
    let tail = s.substring_char(e + 1, n);
    let mut r = split_char(tail, c);
    let ghost gr = r.deep_view();
    r.insert(0, head);
    proof {
        assert(r.deep_view() =~= seq![s@.subrange(0, e as int)] + gr);
        assert(r.deep_view() =~= split_char_spec(s@, c));
    }
    r
}

} // verus!
