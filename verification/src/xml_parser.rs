//! The descriptor codec's reading half: tolerant extraction of elements
//! and attributes from libvirt domain, network and storage-pool XML.
//!
//! The dialect is bounded: elements are located by their opening tag
//! (attributes allowed after the name), content runs to the matching
//! close tag, and attribute values may be single- or double-quoted or
//! bare. Every extractor is specified over `Seq<char>` and proved; a
//! missing optional field never fails a document.

use vstd::prelude::*;

verus! {

use vstd::string::StrSliceExecFns;
use vstd::string::StringExecFns;
use crate::text::occurs_at;
use crate::text::first_index;
use crate::text::lemma_first_index_props;
use crate::text::lemma_first_index_is;
use crate::text::find_sub_from;
use crate::text::lemma_find_sub_from_props;
use crate::text::char_pred;
use crate::text::space_pred;
use crate::text::is_space_char;
use crate::text::is_space;
use crate::text::match_at;
use crate::text::find_sub_at;
use crate::text::trim_spec;
use crate::text::trim_str;
use crate::text::has_sub;
use crate::text::has_sub_ci;
use crate::text::contains_sub;
use crate::text::contains_sub_ci;
use crate::text::all_digits;
use crate::text::dec_val;
use crate::text::is_digit_char;
use crate::text::lemma_occurs_at_index;
use crate::text::lemma_find_sub_from_is;
use crate::text::parse_u64;
use crate::text::eq_str;
use crate::errors::KvmError;
use crate::types::StorageDevice;
use crate::types::StorageDeviceView;
use crate::types::NetworkInterface;
use crate::types::NetworkInterfaceView;
use crate::types::opt_view;
use crate::ids::fresh_uuid;
use crate::ids::is_uuid_char;

/// `<` followed by the element name.
pub open spec fn lt_tag(tag: Seq<char>) -> Seq<char> {
    seq!['<'] + tag
}

/// `</name>`.
pub open spec fn close_tag(tag: Seq<char>) -> Seq<char> {
    seq!['<', '/'] + tag + seq!['>']
}

/// An opening tag of `tag` begins at `i`: `<tag` followed by `>` or
/// whitespace, so that `memory` does not match `currentMemory`.
pub open spec fn open_at(s: Seq<char>, tag: Seq<char>, i: int) -> bool {
    &&& occurs_at(s, lt_tag(tag), i)
    &&& i + 1 + tag.len() < s.len()
    &&& (s[i + 1 + tag.len()] == '>' || is_space_char(s[i + 1 + tag.len()]))
}

pub open spec fn open_pred(s: Seq<char>, tag: Seq<char>) -> spec_fn(int) -> bool {
    |i: int| open_at(s, tag, i)
}

/// First opening tag of `tag` at or after `from`.
pub open spec fn find_open(s: Seq<char>, tag: Seq<char>, from: int) -> Option<int> {
    first_index(s.len() as int, from, open_pred(s, tag))
}

/// Where the content after the opening tag at `i` begins: right after the
/// tag's `>`, which for an attribute-bearing tag is searched for.
pub open spec fn content_start(s: Seq<char>, tag: Seq<char>, i: int) -> Option<int> {
    let after = i + 1 + tag.len();
    if s[after] == '>' {
        Some(after + 1)
    } else {
        match first_index(s.len() as int, after, char_pred(s, '>')) {
            Some(g) => Some(g + 1),
            None => None,
        }
    }
}

/// The trimmed content of the first `tag` element of `s`, if the document
/// holds a complete one.
pub open spec fn tag_content_spec(s: Seq<char>, tag: Seq<char>) -> Option<Seq<char>> {
    match find_open(s, tag, 0) {
        None => None,
        Some(i) => match content_start(s, tag, i) {
            None => None,
            Some(cs) => match find_sub_from(s, close_tag(tag), cs) {
                None => None,
                Some(k) => Some(trim_spec(s.subrange(cs, k))),
            },
        },
    }
}

/// First position of `c` within `[from, to)`, as executable search.
fn find_char_in(s: &str, c: char, from: usize, to: usize) -> (r: Option<usize>)
    requires
        from <= to <= s@.len(),
    ensures
        (match r {
            Some(i) => first_index(to as int, from as int, char_pred(s@, c)) == Some(i as int)
                && from <= i < to,
            None => first_index(to as int, from as int, char_pred(s@, c)) is None,
        }),
{
    let mut e = from;
    while e < to && s.get_char(e) != c
        invariant
            from <= e <= to <= s@.len(),
            forall|j: int| from <= j < e ==> s@[j] != c,
        decreases to - e,
    {
        e += 1;
    }
    proof {
        if e < to {
            assert(char_pred(s@, c)(e as int));
            assert(forall|j: int| from <= j < e ==> !(#[trigger] char_pred(s@, c)(j)));
            lemma_first_index_is(to as int, from as int, char_pred(s@, c), e as int);
        } else {
            lemma_first_index_props(to as int, from as int, char_pred(s@, c));
            if first_index(to as int, from as int, char_pred(s@, c)) is Some {
                let w = first_index(to as int, from as int, char_pred(s@, c))->Some_0;
                assert(char_pred(s@, c)(w));
            }
        }
    }
    if e < to {
        Some(e)
    } else {
        None
    }
}

/// First opening tag of `tag` at or after `from`, executable. `lt` must be
/// `<` followed by the tag.
fn find_open_exec(s: &str, tag: &str, lt: &str, from: usize) -> (r: Option<usize>)
    requires
        lt@ == lt_tag(tag@),
        from <= s@.len(),
    ensures
        (match r {
            Some(i) => find_open(s@, tag@, from as int) == Some(i as int) && from <= i
                && i + 1 + tag@.len() < s@.len(),
            None => find_open(s@, tag@, from as int) is None,
        }),
{
    let n = s.unicode_len();
    let tl = tag.unicode_len();
    let mut cur = from;
    loop
        invariant
            n == s@.len(),
            tl == tag@.len(),
            lt@ == lt_tag(tag@),
            from <= cur <= n,
            forall|j: int| from <= j < cur ==> !open_at(s@, tag@, j),
        decreases n - cur,
    {
        match find_sub_at(s, lt, cur) {
            None => {
                proof {
                    lemma_find_sub_from_props(s@, lt@, cur as int);
                    lemma_first_index_props(n as int, from as int, open_pred(s@, tag@));
                    if find_open(s@, tag@, from as int) is Some {
                        let w = find_open(s@, tag@, from as int)->Some_0;
                        assert(open_pred(s@, tag@)(w));
                        assert(occurs_at(s@, lt@, w));
                        assert(from <= w < cur);
                    }
                }
                return None;
            },
            Some(c) => {
                proof {
                    lemma_find_sub_from_props(s@, lt@, cur as int);
                }
                let b = c + 1 + tl;
                if b < n {
                    let ch = s.get_char(b);
                    if ch == '>' || is_space(ch) {
                        proof {
                            assert(open_at(s@, tag@, c as int));
                            assert(open_pred(s@, tag@)(c as int));
                            assert(forall|j: int|
                                from <= j < c ==> !(#[trigger] open_pred(s@, tag@)(j)));
                            lemma_first_index_is(
                                n as int,
                                from as int,
                                open_pred(s@, tag@),
                                c as int,
                            );
                        }
                        return Some(c);
                    }
                    proof {
                        assert(!open_at(s@, tag@, c as int));
                    }
                    cur = c + 1;
                } else {
                    proof {
                        lemma_first_index_props(n as int, from as int, open_pred(s@, tag@));
                        if find_open(s@, tag@, from as int) is Some {
                            let w = find_open(s@, tag@, from as int)->Some_0;
                            assert(open_pred(s@, tag@)(w));
                            assert(occurs_at(s@, lt@, w));
                            assert(w + lt@.len() <= s@.len());
                            assert(w + 1 + tag@.len() < s@.len());
                        }
                    }
                    return None;
                }
            },
        }
    }
}

/// Build `<tag` as an owned string.
fn make_lt(tag: &str) -> (r: String)
    ensures
        r@ == lt_tag(tag@),
{
    proof {
        reveal_strlit("<");
        assert("<"@ =~= seq!['<']);
    }
    String::from_str("<").concat(tag)
}

/// Build `</tag>` as an owned string.
fn make_close(tag: &str) -> (r: String)
    ensures
        r@ == close_tag(tag@),
{
    proof {
        reveal_strlit("</");
        reveal_strlit(">");
        assert("</"@ =~= seq!['<', '/']);
        assert(">"@ =~= seq!['>']);
    }
    let r = String::from_str("</").concat(tag).concat(">");
    proof {
        assert(r@ =~= close_tag(tag@));
    }
    r
}

/// Non-whitespace positions, as a named predicate.
pub open spec fn nonspace_pred(s: Seq<char>) -> spec_fn(int) -> bool {
    |i: int| !is_space_char(s[i])
}

/// First non-whitespace position in `[i, end)`, or `end`.
pub open spec fn skip_ws(s: Seq<char>, i: int, end: int) -> int {
    if i > end || i < 0 {
        end
    } else {
        match first_index(end, i, nonspace_pred(s)) {
            Some(k) => k,
            None => end,
        }
    }
}

fn skip_ws_exec(s: &str, i: usize, end: usize) -> (r: usize)
    requires
        i <= end <= s@.len(),
    ensures
        r as int == skip_ws(s@, i as int, end as int),
        i <= r <= end,
        r < end ==> !is_space_char(s@[r as int]),
{
    let mut k = i;
    while k < end && is_space(s.get_char(k))
        invariant
            i <= k <= end <= s@.len(),
            forall|j: int| i <= j < k ==> is_space_char(s@[j]),
        decreases end - k,
    {
        k += 1;
    }
    proof {
        if k < end {
            assert(nonspace_pred(s@)(k as int));
            assert(forall|j: int| i <= j < k ==> !(#[trigger] nonspace_pred(s@)(j)));
            lemma_first_index_is(end as int, i as int, nonspace_pred(s@), k as int);
        } else {
            lemma_first_index_props(end as int, i as int, nonspace_pred(s@));
            if first_index(end as int, i as int, nonspace_pred(s@)) is Some {
                let w = first_index(end as int, i as int, nonspace_pred(s@))->Some_0;
                assert(nonspace_pred(s@)(w));
            }
        }
    }
    k
}

/// `attr` occurs at `j` and, after optional whitespace, an `=` follows,
/// all before `hi`.
pub open spec fn attr_match_at(s: Seq<char>, attr: Seq<char>, j: int, hi: int) -> bool {
    &&& occurs_at(s, attr, j)
    &&& j + attr.len() <= hi
    &&& {
        let p1 = skip_ws(s, j + attr.len(), hi);
        p1 < hi && s[p1] == '='
    }
}

pub open spec fn attr_pred(s: Seq<char>, attr: Seq<char>, hi: int) -> spec_fn(int) -> bool {
    |j: int| attr_match_at(s, attr, j, hi)
}

/// The value of the attribute whose name matches at `j`: quoted with either
/// quote, or bare up to the next whitespace.
pub open spec fn attr_value_at(s: Seq<char>, attr: Seq<char>, j: int, hi: int) -> Option<
    Seq<char>,
> {
    let p1 = skip_ws(s, j + attr.len(), hi);
    let p2 = skip_ws(s, p1 + 1, hi);
    if p2 < hi && (s[p2] == '\'' || s[p2] == '"') {
        match first_index(hi, p2 + 1, char_pred(s, s[p2])) {
            Some(e) => Some(s.subrange(p2 + 1, e)),
            None => None,
        }
    } else if p2 < hi {
        let e = (match first_index(hi, p2, space_pred(s)) {
            Some(k) => k,
            None => hi,
        });
        Some(s.subrange(p2, e))
    } else {
        None
    }
}

/// The first attribute of name `attr` inside `[lo, hi)`, with its value.
pub open spec fn attr_in_range(s: Seq<char>, attr: Seq<char>, lo: int, hi: int) -> Option<
    Seq<char>,
> {
    if 0 <= lo <= hi {
        match first_index(hi, lo, attr_pred(s, attr, hi)) {
            Some(j) => attr_value_at(s, attr, j, hi),
            None => None,
        }
    } else {
        None
    }
}

/// Scan element opens of `elem` from `from` on; the first whose open tag
/// carries `attr` yields the value.
pub open spec fn find_attr_from(s: Seq<char>, elem: Seq<char>, attr: Seq<char>, from: int) -> Option<
    Seq<char>,
>
    decreases s.len() - from when 0 <= from <= s.len()
{
    match first_index(s.len() as int, from, open_pred(s, elem)) {
        None => None,
        Some(i) => {
            let hi = (match first_index(s.len() as int, i, char_pred(s, '>')) {
                Some(g) => g,
                None => s.len() as int,
            });
            match attr_in_range(s, attr, i + 1 + elem.len(), hi) {
                Some(v) => Some(v),
                None => if from <= i && i + 1 <= s.len() {
                    find_attr_from(s, elem, attr, i + 1)
                } else {
                    None
                },
            }
        },
    }
}

fn find_attr_match(s: &str, attr: &str, lo: usize, hi: usize) -> (r: Option<usize>)
    requires
        lo <= hi <= s@.len(),
    ensures
        (match r {
            Some(j) => first_index(hi as int, lo as int, attr_pred(s@, attr@, hi as int)) == Some(
                j as int,
            ) && lo <= j < hi && attr_match_at(s@, attr@, j as int, hi as int),
            None => first_index(hi as int, lo as int, attr_pred(s@, attr@, hi as int)) is None,
        }),
{
    let alen = attr.unicode_len();
    let mut j = lo;
    while j < hi
        invariant
            lo <= j <= hi <= s@.len(),
            alen == attr@.len(),
            forall|t: int| lo <= t < j ==> !(#[trigger] attr_pred(s@, attr@, hi as int)(t)),
        decreases hi - j,
    {
        let mut ok = false;
        if alen <= hi && j <= hi - alen {
            if match_at(s, attr, j) {
                let p1 = skip_ws_exec(s, j + alen, hi);
                if p1 < hi && s.get_char(p1) == '=' {
                    ok = true;
                }
            }
        }
        proof {
            assert(ok == attr_match_at(s@, attr@, j as int, hi as int));
            assert(ok == attr_pred(s@, attr@, hi as int)(j as int));
        }
        if ok {
            proof {
                lemma_first_index_is(
                    hi as int,
                    lo as int,
                    attr_pred(s@, attr@, hi as int),
                    j as int,
                );
            }
            return Some(j);
        }
        j += 1;
    }
    proof {
        lemma_first_index_props(hi as int, lo as int, attr_pred(s@, attr@, hi as int));
        if first_index(hi as int, lo as int, attr_pred(s@, attr@, hi as int)) is Some {
            let w = first_index(hi as int, lo as int, attr_pred(s@, attr@, hi as int))->Some_0;
            assert(attr_pred(s@, attr@, hi as int)(w));
        }
    }
    None
}

fn attr_value_exec(s: &str, attr: &str, j: usize, hi: usize) -> (r: Option<String>)
    requires
        j + attr@.len() <= hi,
        hi <= s@.len(),
        attr_match_at(s@, attr@, j as int, hi as int),
    ensures
        (match r {
            Some(v) => attr_value_at(s@, attr@, j as int, hi as int) == Some(v@),
            None => attr_value_at(s@, attr@, j as int, hi as int) is None,
        }),
{
    let alen = attr.unicode_len();
    let p1 = skip_ws_exec(s, j + alen, hi);
    let p2 = skip_ws_exec(s, p1 + 1, hi);
    if p2 < hi {
        let q = s.get_char(p2);
        if q == '\'' || q == '"' {
            match find_char_in(s, q, p2 + 1, hi) {
                Some(e) => Some(String::from_str(s.substring_char(p2 + 1, e))),
                None => None,
            }
        } else {
            let mut e = p2;
            while e < hi && !is_space(s.get_char(e))
                invariant
                    p2 <= e <= hi <= s@.len(),
                    forall|t: int| p2 <= t < e ==> !is_space_char(s@[t]),
                decreases hi - e,
            {
                e += 1;
            }
            proof {
                if e < hi {
                    assert(space_pred(s@)(e as int));
                    assert(forall|t: int| p2 <= t < e ==> !(#[trigger] space_pred(s@)(t)));
                    lemma_first_index_is(hi as int, p2 as int, space_pred(s@), e as int);
                } else {
                    lemma_first_index_props(hi as int, p2 as int, space_pred(s@));
                    if first_index(hi as int, p2 as int, space_pred(s@)) is Some {
                        let w = first_index(hi as int, p2 as int, space_pred(s@))->Some_0;
                        assert(space_pred(s@)(w));
                    }
                }
            }
            Some(String::from_str(s.substring_char(p2, e)))
        }
    } else {
        None
    }
}

/// Stateless parser over descriptor documents.
pub struct XmlParser;

impl XmlParser {
    /// Trimmed content of the first complete `tag` element, attributes in
    /// the opening tag allowed.
    pub fn extract_between_tags(xml: &str, tag: &str) -> (r: Option<String>)
        ensures
            (match r {
                Some(v) => tag_content_spec(xml@, tag@) == Some(v@),
                None => tag_content_spec(xml@, tag@) is None,
            }),
    {
        let lt = make_lt(tag);
        let n = xml.unicode_len();
        let tl = tag.unicode_len();
        match find_open_exec(xml, tag, lt.as_str(), 0) {
            None => None,
            Some(i) => {
                let after = i + 1 + tl;
                let cs: usize;
                if xml.get_char(after) == '>' {
                    cs = after + 1;
                } else {
                    match find_char_in(xml, '>', after, n) {
                        Some(g) => {
                            cs = g + 1;
                        },
                        None => {
                            return None;
                        },
                    }
                }
                let close = make_close(tag);
                match find_sub_at(xml, close.as_str(), cs) {
                    None => None,
                    Some(k) => {
                        proof {
                            lemma_find_sub_from_props(xml@, close@, cs as int);
                        }
                        let piece = xml.substring_char(cs, k);
                        Some(trim_str(piece))
                    },
                }
            },
        }
    }

    /// First value of `attribute` found in an opening tag of `element`,
    /// scanning elements in order; quotes of either kind are accepted.
    pub fn extract_attribute_value(xml: &str, element: &str, attribute: &str) -> (r: Option<
        String,
    >)
        ensures
            (match r {
                Some(v) => find_attr_from(xml@, element@, attribute@, 0) == Some(v@),
                None => find_attr_from(xml@, element@, attribute@, 0) is None,
            }),
    {
        let lt = make_lt(element);
        let n = xml.unicode_len();
        let el = element.unicode_len();
        let mut cur: usize = 0;
        loop
            invariant
                n == xml@.len(),
                el == element@.len(),
                lt@ == lt_tag(element@),
                0 <= cur <= n,
                find_attr_from(xml@, element@, attribute@, 0) == find_attr_from(
                    xml@,
                    element@,
                    attribute@,
                    cur as int,
                ),
            decreases n - cur,
        {
            match find_open_exec(xml, element, lt.as_str(), cur) {
                None => {
                    return None;
                },
                Some(i) => {
                    let hi: usize;
                    match find_char_in(xml, '>', i, n) {
                        Some(g) => {
                            hi = g;
                        },
                        None => {
                            hi = n;
                        },
                    }
                    let lo = i + 1 + el;
                    if lo <= hi {
                        match find_attr_match(xml, attribute, lo, hi) {
                            Some(j) => {
                                let v = attr_value_exec(xml, attribute, j, hi);
                                match v {
                                    Some(v) => {
                                        return Some(v);
                                    },
                                    None => {},
                                }
                            },
                            None => {},
                        }
                    }
                    proof {
                        assert(find_attr_from(xml@, element@, attribute@, cur as int)
                            == find_attr_from(xml@, element@, attribute@, i + 1));
                    }
                    cur = i + 1;
                },
            }
        }
    }

    /// The whole first `section_name` element, opening tag through close tag.
    pub fn extract_section(xml: &str, section_name: &str) -> (r: Option<String>)
        ensures
            (match r {
                Some(v) => section_spec(xml@, section_name@) == Some(v@),
                None => section_spec(xml@, section_name@) is None,
            }),
    {
        proof {
            reveal_strlit(">");
            assert(">"@ =~= seq!['>']);
        }
        let open = make_lt(section_name).concat(">");
        proof {
            assert(open@ =~= lt_tag(section_name@) + seq!['>']);
        }
        let close = make_close(section_name);
        match find_sub_at(xml, open.as_str(), 0) {
            None => None,
            Some(i) => {
                proof {
                    lemma_find_sub_from_props(xml@, open@, 0);
                }
                match find_sub_at(xml, close.as_str(), i) {
                    None => None,
                    Some(k) => {
                        proof {
                            lemma_find_sub_from_props(xml@, close@, i as int);
                        }
                        let n = xml.unicode_len();
                        let cl = close.as_str().unicode_len();
                        proof {
                            assert(k + cl <= n);
                        }
                        Some(String::from_str(xml.substring_char(i, k + cl)))
                    },
                }
            },
        }
    }
}

/// The span of the first complete `<name>`...`</name>` section, as the
/// document's own text, opening tag through close tag.
pub open spec fn section_spec(s: Seq<char>, name: Seq<char>) -> Option<Seq<char>> {
    let open = lt_tag(name) + seq!['>'];
    match find_sub_from(s, open, 0) {
        None => None,
        Some(i) => match find_sub_from(s, close_tag(name), i) {
            None => None,
            Some(k) => Some(s.subrange(i, k + close_tag(name).len())),
        },
    }
}


/// Saturating addition within `u64` range.
pub open spec fn sat_add(a: int, b: int) -> int {
    if a + b > u64::MAX {
        u64::MAX as int
    } else {
        a + b
    }
}

/// Aggregate size of a set of storage devices, saturating.
pub open spec fn total_disk_gb(devs: Seq<StorageDeviceView>) -> int
    decreases devs.len(),
{
    if devs.len() == 0 {
        0
    } else {
        sat_add(total_disk_gb(devs.drop_last()), devs.last().size_gb as int)
    }
}

/// The consecutive complete `tag` elements of `x`, each as its full
/// text from opening tag through close tag, scanning opens in order.
pub open spec fn element_segments(x: Seq<char>, tag: Seq<char>, from: int) -> Seq<Seq<char>>
    decreases x.len() - from when 0 <= from <= x.len()
{
    match first_index(x.len() as int, from, open_pred(x, tag)) {
        None => Seq::empty(),
        Some(i) => {
            if from <= i && i < x.len() {
                let rest = element_segments(x, tag, i + 1);
                match find_sub_from(x, close_tag(tag), i) {
                    Some(k) => seq![x.subrange(i, k + close_tag(tag).len())] + rest,
                    None => rest,
                }
            } else {
                Seq::empty()
            }
        },
    }
}

fn element_segments_exec(x: &str, tag: &str) -> (r: Vec<String>)
    ensures
        r.deep_view() == element_segments(x@, tag@, 0),
{
    let lt = make_lt(tag);
    let close = make_close(tag);
    let n = x.unicode_len();
    let cl = close.as_str().unicode_len();
    let mut out: Vec<String> = Vec::new();
    let mut cur: usize = 0;
    loop
        invariant
            n == x@.len(),
            cl == close_tag(tag@).len(),
            lt@ == lt_tag(tag@),
            close@ == close_tag(tag@),
            0 <= cur <= n,
            out.deep_view() + element_segments(x@, tag@, cur as int) =~= element_segments(
                x@,
                tag@,
                0,
            ),
        decreases n - cur,
    {
        match find_open_exec(x, tag, lt.as_str(), cur) {
            None => {
                proof {
                    assert(element_segments(x@, tag@, cur as int) =~= Seq::<Seq<char>>::empty());
                    assert(out.deep_view() =~= element_segments(x@, tag@, 0));
                }
                return out;
            },
            Some(i) => {
                proof {
                    lemma_first_index_props(n as int, cur as int, open_pred(x@, tag@));
                }
                match find_sub_at(x, close.as_str(), i) {
                    Some(k) => {
                        proof {
                            lemma_find_sub_from_props(x@, close@, i as int);
                            assert(k + cl <= n);
                        }
                        let ghost prev = out.deep_view();
                        let seg = String::from_str(x.substring_char(i, k + cl));
                        out.push(seg);
                        proof {
                            assert(out.deep_view() =~= prev + seq![
                                x@.subrange(i as int, k + cl),
                            ]);
                            assert(element_segments(x@, tag@, cur as int) =~= seq![
                                x@.subrange(i as int, k + cl),
                            ] + element_segments(x@, tag@, i + 1));
                            assert(out.deep_view() + element_segments(x@, tag@, i + 1)
                                =~= element_segments(x@, tag@, 0));
                        }
                        cur = i + 1;
                    },
                    None => {
                        proof {
                            assert(element_segments(x@, tag@, cur as int) =~= element_segments(
                                x@,
                                tag@,
                                i + 1,
                            ));
                        }
                        cur = i + 1;
                    },
                }
            },
        }
    }
}

/// A disk element parsed to a device record, excluding removable media:
/// only `device='disk'` elements count; format, slot and bus take their
/// documented defaults. Size is left 0 for the external inspection step.
pub open spec fn disk_of_segment(seg: Seq<char>) -> Option<StorageDeviceView> {
    match find_attr_from(seg, "disk"@, "device"@, 0) {
        None => None,
        Some(d) => {
            if d != "disk"@ {
                None
            } else {
                Some(
                    (StorageDeviceView {
                        device: (match find_attr_from(seg, "target"@, "dev"@, 0) {
                            Some(v) => v,
                            None => "vda"@,
                        }),
                        type_: (match find_attr_from(seg, "driver"@, "type"@, 0) {
                            Some(v) => v,
                            None => "raw"@,
                        }),
                        size_gb: 0,
                        path: (match find_attr_from(seg, "source"@, "file"@, 0) {
                            Some(v) => Some(v),
                            None => find_attr_from(seg, "source"@, "dev"@, 0),
                        }),
                        bus: (match find_attr_from(seg, "target"@, "bus"@, 0) {
                            Some(v) => v,
                            None => "virtio"@,
                        }),
                        cache: find_attr_from(seg, "driver"@, "cache"@, 0),
                    }),
                )
            }
        },
    }
}

/// The devices of a sequence of disk segments, in order.
pub open spec fn disks_of_segments(segs: Seq<Seq<char>>) -> Seq<StorageDeviceView>
    decreases segs.len(),
{
    if segs.len() == 0 {
        Seq::empty()
    } else {
        (match disk_of_segment(segs[0]) {
            Some(d) => seq![d],
            None => Seq::empty(),
        }) + disks_of_segments(segs.drop_first())
    }
}

/// All storage devices a domain document declares.
pub open spec fn disks_of(x: Seq<char>) -> Seq<StorageDeviceView> {
    disks_of_segments(element_segments(x, "disk"@, 0))
}

/// An interface element parsed to a record; the interface type attribute
/// is required, everything else defaults. An interface that the
/// descriptor declares is assumed connected.
pub open spec fn iface_of_segment(seg: Seq<char>) -> Option<NetworkInterfaceView> {
    match find_attr_from(seg, "interface"@, "type"@, 0) {
        None => None,
        Some(t) => Some(
            (NetworkInterfaceView {
                type_: t,
                mac_address: find_attr_from(seg, "mac"@, "address"@, 0),
                source: (match find_attr_from(seg, "source"@, "network"@, 0) {
                    Some(v) => v,
                    None => (match find_attr_from(seg, "source"@, "bridge"@, 0) {
                        Some(v) => v,
                        None => "default"@,
                    }),
                }),
                model: (match find_attr_from(seg, "model"@, "type"@, 0) {
                    Some(v) => v,
                    None => "rtl8139"@,
                }),
                connected: true,
            }),
        ),
    }
}

pub open spec fn ifaces_of_segments(segs: Seq<Seq<char>>) -> Seq<NetworkInterfaceView>
    decreases segs.len(),
{
    if segs.len() == 0 {
        Seq::empty()
    } else {
        (match iface_of_segment(segs[0]) {
            Some(d) => seq![d],
            None => Seq::empty(),
        }) + ifaces_of_segments(segs.drop_first())
    }
}

/// All network interfaces a domain document declares.
pub open spec fn ifaces_of(x: Seq<char>) -> Seq<NetworkInterfaceView> {
    ifaces_of_segments(element_segments(x, "interface"@, 0))
}

/// Content that parses as a decimal number fitting `u64`.
pub open spec fn dec_parse_ok(v: Seq<char>) -> bool {
    v.len() > 0 && all_digits(v) && dec_val(v) <= u64::MAX
}

/// Memory in MB: the `memory` element value in KiB divided by 1024;
/// unreadable or absent values give 0.
pub open spec fn parsed_memory_mb(x: Seq<char>) -> u64 {
    match tag_content_spec(x, "memory"@) {
        Some(v) => if dec_parse_ok(v) {
            (dec_val(v) / 1024) as u64
        } else {
            0
        },
        None => 0,
    }
}

/// vCPU count; unreadable or absent values give 0.
pub open spec fn parsed_vcpus(x: Seq<char>) -> u32 {
    match tag_content_spec(x, "vcpu"@) {
        Some(v) => if v.len() > 0 && all_digits(v) && dec_val(v) <= u32::MAX {
            dec_val(v) as u32
        } else {
            0
        },
        None => 0,
    }
}

/// A graphics port when the document declares the channel kind named by
/// `marker`; the sentinel `-1` means auto-assigned and yields no port.
pub open spec fn parsed_port(x: Seq<char>, marker: Seq<char>) -> Option<u16> {
    if has_sub(x, marker) {
        match find_attr_from(x, "graphics"@, "port"@, 0) {
            Some(p) => {
                if p == "-1"@ {
                    None
                } else if p.len() > 0 && all_digits(p) && dec_val(p) <= u16::MAX {
                    Some(dec_val(p) as u16)
                } else {
                    None
                }
            },
            None => None,
        }
    } else {
        None
    }
}

/// OS classification when no vendor metadata decides: a case-insensitive
/// scan of the whole document, defaulting to a generic Linux.
pub open spec fn parsed_os_fallback(x: Seq<char>) -> (Seq<char>, Option<Seq<char>>) {
    if has_sub_ci(x, "windows"@) || has_sub_ci(x, "win10"@) || has_sub_ci(x, "win11"@) {
        ("windows"@, Some("win10"@))
    } else if has_sub_ci(x, "freebsd"@) || has_sub_ci(x, "openbsd"@) {
        ("bsd"@, Some("generic"@))
    } else {
        ("linux"@, Some("generic"@))
    }
}

/// OS classification: vendor metadata first, mapped through the fixed
/// vendor-string table, then the whole-document scan.
pub open spec fn parsed_os(x: Seq<char>) -> (Seq<char>, Option<Seq<char>>) {
    match find_attr_from(x, "libosinfo:os"@, "id"@, 0) {
        Some(id) => {
            if has_sub(id, "debian"@) {
                ("linux"@, Some("debian"@))
            } else if has_sub(id, "ubuntu"@) {
                ("linux"@, Some("ubuntu"@))
            } else if has_sub(id, "fedora"@) {
                ("linux"@, Some("fedora"@))
            } else if has_sub(id, "rhel"@) || has_sub(id, "centos"@) {
                ("linux"@, Some("rhel"@))
            } else if has_sub(id, "windows"@) {
                ("windows"@, Some("win10"@))
            } else {
                parsed_os_fallback(x)
            }
        },
        None => parsed_os_fallback(x),
    }
}

/// The description element, or the title element as a fallback.
pub open spec fn parsed_desc(x: Seq<char>) -> Option<Seq<char>> {
    match tag_content_spec(x, "description"@) {
        Some(d) => Some(d),
        None => tag_content_spec(x, "title"@),
    }
}

/// Structured fields read from a domain descriptor document.
#[derive(Debug, Clone)]
pub struct VmXmlInfo {
    pub name: String,
    pub uuid: String,
    /// Memory in MB.
    pub memory_mb: u64,
    pub vcpus: u32,
    pub os_type: String,
    pub os_variant: Option<String>,
    /// Aggregate of the device sizes below, GB.
    pub disk_size_gb: u64,
    pub storage_devices: Vec<StorageDevice>,
    pub network_interfaces: Vec<NetworkInterface>,
    pub vnc_port: Option<u16>,
    pub spice_port: Option<u16>,
    pub description: Option<String>,
}

/// Structured fields read from a network document.
#[derive(Debug, Clone)]
pub struct NetworkXmlInfo {
    pub name: String,
    pub uuid: String,
    pub forward_mode: String,
    pub bridge_name: Option<String>,
    pub ip_range: Option<String>,
    pub dhcp_enabled: bool,
    pub dhcp_start: Option<String>,
    pub dhcp_end: Option<String>,
    pub domain: Option<String>,
}

/// Structured fields read from a storage-pool document.
#[derive(Debug, Clone)]
pub struct StoragePoolXmlInfo {
    pub name: String,
    pub pool_type: String,
    pub path: Option<String>,
    pub source_name: Option<String>,
    pub source_host: Option<String>,
    pub source_device: Option<String>,
}

fn or_lit(o: Option<String>, d: &str) -> (r: String)
    ensures
        r@ == (match opt_view(o) {
            Some(v) => v,
            None => d@,
        }),
{
    match o {
        Some(v) => v,
        None => String::from_str(d),
    }
}

/// CIDR prefix length of a dotted-quad netmask, from the fixed table of
/// contiguous masks; anything else defaults to 24.
pub open spec fn cidr_of(m: Seq<char>) -> u8 {
    if m == "255.255.255.255"@ { 32u8 }
    else if m == "255.255.255.254"@ { 31u8 }
    else if m == "255.255.255.252"@ { 30u8 }
    else if m == "255.255.255.248"@ { 29u8 }
    else if m == "255.255.255.240"@ { 28u8 }
    else if m == "255.255.255.224"@ { 27u8 }
    else if m == "255.255.255.192"@ { 26u8 }
    else if m == "255.255.255.128"@ { 25u8 }
    else if m == "255.255.255.0"@ { 24u8 }
    else if m == "255.255.254.0"@ { 23u8 }
    else if m == "255.255.252.0"@ { 22u8 }
    else if m == "255.255.248.0"@ { 21u8 }
    else if m == "255.255.240.0"@ { 20u8 }
    else if m == "255.255.224.0"@ { 19u8 }
    else if m == "255.255.192.0"@ { 18u8 }
    else if m == "255.255.128.0"@ { 17u8 }
    else if m == "255.255.0.0"@ { 16u8 }
    else if m == "255.254.0.0"@ { 15u8 }
    else if m == "255.252.0.0"@ { 14u8 }
    else if m == "255.248.0.0"@ { 13u8 }
    else if m == "255.240.0.0"@ { 12u8 }
    else if m == "255.224.0.0"@ { 11u8 }
    else if m == "255.192.0.0"@ { 10u8 }
    else if m == "255.128.0.0"@ { 9u8 }
    else if m == "255.0.0.0"@ { 8u8 }
    else { 24u8 }
}

/// The `name` element, or `unknown` when a document lacks one.
pub open spec fn named_or_unknown(x: Seq<char>) -> Seq<char> {
    match tag_content_spec(x, "name"@) {
        Some(v) => v,
        None => "unknown"@,
    }
}

/// The address/prefix form of the network's IP range, when an address is
/// declared; the netmask defaults to /24's dotted form.
pub open spec fn parsed_ip_range(x: Seq<char>) -> Option<Seq<char>> {
    match find_attr_from(x, "ip"@, "address"@, 0) {
        Some(ip) => {
            let mask = (match find_attr_from(x, "ip"@, "netmask"@, 0) {
                Some(m) => m,
                None => "255.255.255.0"@,
            });
            Some(ip + seq!['/'] + crate::text::dec_str(cidr_of(mask) as int))
        },
        None => None,
    }
}

impl XmlParser {
    /// Parse a domain descriptor. Only the name element is mandatory;
    /// every other field takes its documented default when missing, so an
    /// incomplete document never fails.
    pub fn parse_vm_from_xml(xml: &str) -> (r: Result<VmXmlInfo, KvmError>)
        ensures
            (r is Ok) == (tag_content_spec(xml@, "name"@) is Some),
            r is Ok ==> tag_content_spec(xml@, "name"@) == Some(r->Ok_0.name@),
            r is Ok ==> (match tag_content_spec(xml@, "uuid"@) {
                Some(u) => r->Ok_0.uuid@ == u,
                None => r->Ok_0.uuid@.len() == 36,
            }),
            r is Ok ==> r->Ok_0.memory_mb == parsed_memory_mb(xml@),
            r is Ok ==> r->Ok_0.vcpus == parsed_vcpus(xml@),
            r is Ok ==> r->Ok_0.os_type@ == parsed_os(xml@).0,
            r is Ok ==> opt_view(r->Ok_0.os_variant) == parsed_os(xml@).1,
            r is Ok ==> r->Ok_0.storage_devices@.map_values(|d: StorageDevice| d@) == disks_of(
                xml@,
            ),
            r is Ok ==> r->Ok_0.disk_size_gb == 0,
            r is Ok ==> r->Ok_0.network_interfaces@.map_values(|i: NetworkInterface| i@)
                == ifaces_of(xml@),
            r is Ok ==> r->Ok_0.vnc_port == parsed_port(xml@, "type='vnc'"@),
            r is Ok ==> r->Ok_0.spice_port == parsed_port(xml@, "type='spice'"@),
            r is Ok ==> opt_view(r->Ok_0.description) == parsed_desc(xml@),
            r is Err ==> r->Err_0 is XmlParsingError,
    {
        let name = (match Self::extract_between_tags(xml, "name") {
            Some(v) => v,
            None => {
                return Err(
                    KvmError::XmlParsingError(String::from_str("descriptor has no name element")),
                );
            },
        });
        let uuid = (match Self::extract_between_tags(xml, "uuid") {
            Some(v) => v,
            None => fresh_uuid(),
        });
        let memory_mb: u64 = (match Self::extract_between_tags(xml, "memory") {
            Some(v) => (match parse_u64(v.as_str()) {
                Some(kib) => kib / 1024,
                None => 0,
            }),
            None => 0,
        });
        let vcpus: u32 = (match Self::extract_between_tags(xml, "vcpu") {
            Some(v) => (match parse_u64(v.as_str()) {
                Some(c) => if c <= u32::MAX as u64 {
                    c as u32
                } else {
                    0
                },
                None => 0,
            }),
            None => 0,
        });
        let os = Self::parse_os_info(xml);
        let storage_devices = Self::parse_storage_devices(xml);
        let network_interfaces = Self::parse_network_interfaces(xml);
        let vnc_port = Self::parse_vnc_port(xml);
        let spice_port = Self::parse_spice_port(xml);
        let description = Self::extract_description(xml);
        Ok(
            VmXmlInfo {
                name,
                uuid,
                memory_mb,
                vcpus,
                os_type: os.0,
                os_variant: os.1,
                disk_size_gb: 0,
                storage_devices,
                network_interfaces,
                vnc_port,
                spice_port,
                description,
            },
        )
    }

    /// OS classification of a whole document.
    pub fn parse_os_info(xml: &str) -> (r: (String, Option<String>))
        ensures
            r.0@ == parsed_os(xml@).0,
            opt_view(r.1) == parsed_os(xml@).1,
    {
        match Self::extract_attribute_value(xml, "libosinfo:os", "id") {
            Some(id) => {
                if contains_sub(id.as_str(), "debian") {
                    (String::from_str("linux"), Some(String::from_str("debian")))
                } else if contains_sub(id.as_str(), "ubuntu") {
                    (String::from_str("linux"), Some(String::from_str("ubuntu")))
                } else if contains_sub(id.as_str(), "fedora") {
                    (String::from_str("linux"), Some(String::from_str("fedora")))
                } else if contains_sub(id.as_str(), "rhel") || contains_sub(id.as_str(), "centos") {
                    (String::from_str("linux"), Some(String::from_str("rhel")))
                } else if contains_sub(id.as_str(), "windows") {
                    (String::from_str("windows"), Some(String::from_str("win10")))
                } else {
                    Self::os_fallback(xml)
                }
            },
            None => Self::os_fallback(xml),
        }
    }

    fn os_fallback(xml: &str) -> (r: (String, Option<String>))
        ensures
            r.0@ == parsed_os_fallback(xml@).0,
            opt_view(r.1) == parsed_os_fallback(xml@).1,
    {
        if contains_sub_ci(xml, "windows") || contains_sub_ci(xml, "win10") || contains_sub_ci(
            xml,
            "win11",
        ) {
            (String::from_str("windows"), Some(String::from_str("win10")))
        } else if contains_sub_ci(xml, "freebsd") || contains_sub_ci(xml, "openbsd") {
            (String::from_str("bsd"), Some(String::from_str("generic")))
        } else {
            (String::from_str("linux"), Some(String::from_str("generic")))
        }
    }

    /// The declared storage devices, removable media excluded, sizes 0
    /// pending external inspection.
    pub fn parse_storage_devices(xml: &str) -> (r: Vec<StorageDevice>)
        ensures
            r@.map_values(|d: StorageDevice| d@) == disks_of(xml@),
    {
        let segs = element_segments_exec(xml, "disk");
        let ghost gsegs = segs.deep_view();
        let mut out: Vec<StorageDevice> = Vec::new();
        let mut k: usize = 0;
        proof {
            assert(gsegs.skip(0) =~= gsegs);
            assert(out@.map_values(|d: StorageDevice| d@) =~= Seq::<StorageDeviceView>::empty());
        }
        while k < segs.len()
            invariant
                gsegs == segs.deep_view(),
                0 <= k <= segs.len(),
                out@.map_values(|d: StorageDevice| d@) + disks_of_segments(gsegs.skip(k as int))
                    =~= disks_of_segments(gsegs),
            decreases segs.len() - k,
        {
            let ghost pre = out@.map_values(|d: StorageDevice| d@);
            proof {
                assert(gsegs.skip(k as int).drop_first() =~= gsegs.skip(k as int + 1));
                assert(gsegs.skip(k as int)[0] == gsegs[k as int]);
            }
            match Self::parse_single_disk(segs[k].as_str()) {
                Some(d) => {
                    out.push(d);
                    proof {
                        assert(out@.map_values(|d: StorageDevice| d@) =~= pre + seq![d@]);
                    }
                },
                None => {},
            }
            k += 1;
        }
        proof {
            assert(gsegs.skip(gsegs.len() as int) =~= Seq::<Seq<char>>::empty());
            assert(out@.map_values(|d: StorageDevice| d@) =~= disks_of_segments(gsegs));
        }
        out
    }

    /// One disk element; removable media gives `None`.
    pub fn parse_single_disk(disk_xml: &str) -> (r: Option<StorageDevice>)
        ensures
            (match r {
                Some(d) => disk_of_segment(disk_xml@) == Some(d@),
                None => disk_of_segment(disk_xml@) is None,
            }),
    {
        let device_type = (match Self::extract_attribute_value(disk_xml, "disk", "device") {
            Some(d) => d,
            None => {
                return None;
            },
        });
        if !eq_str(device_type.as_str(), "disk") {
            return None;
        }
        let driver_type = or_lit(Self::extract_attribute_value(disk_xml, "driver", "type"), "raw");
        let target_dev = or_lit(Self::extract_attribute_value(disk_xml, "target", "dev"), "vda");
        let target_bus = or_lit(Self::extract_attribute_value(disk_xml, "target", "bus"), "virtio");
        let source_path = (match Self::extract_attribute_value(disk_xml, "source", "file") {
            Some(f) => Some(f),
            None => Self::extract_attribute_value(disk_xml, "source", "dev"),
        });
        let cache = Self::extract_attribute_value(disk_xml, "driver", "cache");
        let d = StorageDevice {
            device: target_dev,
            type_: driver_type,
            size_gb: 0,
            path: source_path,
            bus: target_bus,
            cache,
        };
        proof {
            assert(disk_of_segment(disk_xml@) == Some(d@));
        }
        Some(d)
    }

    /// The declared network interfaces.
    pub fn parse_network_interfaces(xml: &str) -> (r: Vec<NetworkInterface>)
        ensures
            r@.map_values(|i: NetworkInterface| i@) == ifaces_of(xml@),
    {
        let segs = element_segments_exec(xml, "interface");
        let ghost gsegs = segs.deep_view();
        let mut out: Vec<NetworkInterface> = Vec::new();
        let mut k: usize = 0;
        proof {
            assert(gsegs.skip(0) =~= gsegs);
            assert(out@.map_values(|i: NetworkInterface| i@) =~= Seq::<
                NetworkInterfaceView,
            >::empty());
        }
        while k < segs.len()
            invariant
                gsegs == segs.deep_view(),
                0 <= k <= segs.len(),
                out@.map_values(|i: NetworkInterface| i@) + ifaces_of_segments(
                    gsegs.skip(k as int),
                ) =~= ifaces_of_segments(gsegs),
            decreases segs.len() - k,
        {
            let ghost pre = out@.map_values(|i: NetworkInterface| i@);
            proof {
                assert(gsegs.skip(k as int).drop_first() =~= gsegs.skip(k as int + 1));
                assert(gsegs.skip(k as int)[0] == gsegs[k as int]);
            }
            match Self::parse_single_interface(segs[k].as_str()) {
                Some(d) => {
                    out.push(d);
                    proof {
                        assert(out@.map_values(|i: NetworkInterface| i@) =~= pre + seq![d@]);
                    }
                },
                None => {},
            }
            k += 1;
        }
        proof {
            assert(gsegs.skip(gsegs.len() as int) =~= Seq::<Seq<char>>::empty());
            assert(out@.map_values(|i: NetworkInterface| i@) =~= ifaces_of_segments(gsegs));
        }
        out
    }

    /// One interface element; the type attribute is required.
    pub fn parse_single_interface(interface_xml: &str) -> (r: Option<NetworkInterface>)
        ensures
            (match r {
                Some(i) => iface_of_segment(interface_xml@) == Some(i@),
                None => iface_of_segment(interface_xml@) is None,
            }),
    {
        let interface_type = (match Self::extract_attribute_value(
            interface_xml,
            "interface",
            "type",
        ) {
            Some(t) => t,
            None => {
                return None;
            },
        });
        let mac_address = Self::extract_attribute_value(interface_xml, "mac", "address");
        let source = (match Self::extract_attribute_value(interface_xml, "source", "network") {
            Some(v) => v,
            None => or_lit(
                Self::extract_attribute_value(interface_xml, "source", "bridge"),
                "default",
            ),
        });
        let model = or_lit(Self::extract_attribute_value(interface_xml, "model", "type"), "rtl8139");
        let i = NetworkInterface {
            type_: interface_type,
            mac_address,
            source,
            model,
            connected: true,
        };
        proof {
            assert(iface_of_segment(interface_xml@) == Some(i@));
        }
        Some(i)
    }

    fn parse_graphics_port(xml: &str, marker: &str) -> (r: Option<u16>)
        ensures
            r == parsed_port(xml@, marker@),
    {
        if contains_sub(xml, marker) {
            match Self::extract_attribute_value(xml, "graphics", "port") {
                Some(p) => {
                    if eq_str(p.as_str(), "-1") {
                        None
                    } else {
                        match parse_u64(p.as_str()) {
                            Some(v) => if v <= 65535 {
                                Some(v as u16)
                            } else {
                                None
                            },
                            None => None,
                        }
                    }
                },
                None => None,
            }
        } else {
            None
        }
    }

    /// The VNC display port, when one is declared with a concrete number.
    pub fn parse_vnc_port(xml: &str) -> (r: Option<u16>)
        ensures
            r == parsed_port(xml@, "type='vnc'"@),
    {
        Self::parse_graphics_port(xml, "type='vnc'")
    }

    /// The SPICE display port, when one is declared with a concrete number.
    pub fn parse_spice_port(xml: &str) -> (r: Option<u16>)
        ensures
            r == parsed_port(xml@, "type='spice'"@),
    {
        Self::parse_graphics_port(xml, "type='spice'")
    }

    /// The description, falling back to the title.
    pub fn extract_description(xml: &str) -> (r: Option<String>)
        ensures
            opt_view(r) == parsed_desc(xml@),
    {
        match Self::extract_between_tags(xml, "description") {
            Some(d) => Some(d),
            None => Self::extract_between_tags(xml, "title"),
        }
    }

    /// Parse a network document; every field is optional with its
    /// documented default.
    pub fn parse_network_from_xml(xml: &str) -> (r: Result<NetworkXmlInfo, KvmError>)
        ensures
            r is Ok,
            r->Ok_0.name@ == named_or_unknown(xml@),
            (match tag_content_spec(xml@, "uuid"@) {
                Some(u) => r->Ok_0.uuid@ == u,
                None => r->Ok_0.uuid@.len() == 36,
            }),
            r->Ok_0.forward_mode@ == (match find_attr_from(xml@, "forward"@, "mode"@, 0) {
                Some(v) => v,
                None => "nat"@,
            }),
            opt_view(r->Ok_0.bridge_name) == find_attr_from(xml@, "bridge"@, "name"@, 0),
            opt_view(r->Ok_0.ip_range) == parsed_ip_range(xml@),
            r->Ok_0.dhcp_enabled == has_sub(xml@, "<dhcp>"@),
            opt_view(r->Ok_0.dhcp_start) == (if has_sub(xml@, "<dhcp>"@) {
                find_attr_from(xml@, "range"@, "start"@, 0)
            } else {
                Option::<Seq<char>>::None
            }),
            opt_view(r->Ok_0.dhcp_end) == (if has_sub(xml@, "<dhcp>"@) {
                find_attr_from(xml@, "range"@, "end"@, 0)
            } else {
                Option::<Seq<char>>::None
            }),
            opt_view(r->Ok_0.domain) == find_attr_from(xml@, "domain"@, "name"@, 0),
    {
        let name = or_lit(Self::extract_between_tags(xml, "name"), "unknown");
        let uuid = (match Self::extract_between_tags(xml, "uuid") {
            Some(v) => v,
            None => fresh_uuid(),
        });
        let forward_mode = or_lit(Self::extract_attribute_value(xml, "forward", "mode"), "nat");
        let bridge_name = Self::extract_attribute_value(xml, "bridge", "name");
        let ip_range = (match Self::extract_attribute_value(xml, "ip", "address") {
            Some(ip) => {
                let netmask = or_lit(
                    Self::extract_attribute_value(xml, "ip", "netmask"),
                    "255.255.255.0",
                );
                let cidr = Self::netmask_to_cidr(netmask.as_str());
                let cidr_str = crate::text::u64_to_string(cidr as u64);
                proof {
                    reveal_strlit("/");
                    assert("/"@ =~= seq!['/']);
                }
                let combined = ip.concat("/").concat(cidr_str.as_str());
                proof {
                    assert(combined@ =~= ip@ + seq!['/'] + crate::text::dec_str(cidr as int));
                }
                Some(combined)
            },
            None => None,
        });
        let dhcp_enabled = contains_sub(xml, "<dhcp>");
        let dhcp_start = (if dhcp_enabled {
            Self::extract_attribute_value(xml, "range", "start")
        } else {
            None
        });
        let dhcp_end = (if dhcp_enabled {
            Self::extract_attribute_value(xml, "range", "end")
        } else {
            None
        });
        let domain = Self::extract_attribute_value(xml, "domain", "name");
        Ok(
            NetworkXmlInfo {
                name,
                uuid,
                forward_mode,
                bridge_name,
                ip_range,
                dhcp_enabled,
                dhcp_start,
                dhcp_end,
                domain,
            },
        )
    }

    /// Parse a storage-pool document; type-specific source fields are
    /// read for logical and iSCSI pools.
    pub fn parse_storage_pool_from_xml(xml: &str) -> (r: Result<StoragePoolXmlInfo, KvmError>)
        ensures
            r is Ok,
            r->Ok_0.name@ == named_or_unknown(xml@),
            r->Ok_0.pool_type@ == (match find_attr_from(xml@, "pool"@, "type"@, 0) {
                Some(v) => v,
                None => Seq::<char>::empty(),
            }),
            opt_view(r->Ok_0.path) == (match section_spec(xml@, "target"@) {
                Some(sec) => tag_content_spec(sec, "path"@),
                None => Option::<Seq<char>>::None,
            }),
            opt_view(r->Ok_0.source_name) == (match section_spec(xml@, "source"@) {
                Some(sec) => if r->Ok_0.pool_type@ == "logical"@ {
                    tag_content_spec(sec, "name"@)
                } else {
                    Option::<Seq<char>>::None
                },
                None => Option::<Seq<char>>::None,
            }),
            opt_view(r->Ok_0.source_host) == (match section_spec(xml@, "source"@) {
                Some(sec) => if r->Ok_0.pool_type@ == "iscsi"@ {
                    find_attr_from(sec, "host"@, "name"@, 0)
                } else {
                    Option::<Seq<char>>::None
                },
                None => Option::<Seq<char>>::None,
            }),
            opt_view(r->Ok_0.source_device) == (match section_spec(xml@, "source"@) {
                Some(sec) => if r->Ok_0.pool_type@ == "iscsi"@ {
                    find_attr_from(sec, "device"@, "path"@, 0)
                } else {
                    Option::<Seq<char>>::None
                },
                None => Option::<Seq<char>>::None,
            }),
    {
        let name = or_lit(Self::extract_between_tags(xml, "name"), "unknown");
        let pool_type = or_lit(Self::extract_attribute_value(xml, "pool", "type"), "");
        proof {
            reveal_strlit("");
            assert(""@ =~= Seq::<char>::empty());
            reveal_strlit("logical");
            reveal_strlit("iscsi");
            assert("logical"@.len() != "iscsi"@.len());
        }
        let path = (match Self::extract_section(xml, "target") {
            Some(sec) => Self::extract_between_tags(sec.as_str(), "path"),
            None => None,
        });
        let mut source_name: Option<String> = None;
        let mut source_host: Option<String> = None;
        let mut source_device: Option<String> = None;
        match Self::extract_section(xml, "source") {
            Some(sec) => {
                if eq_str(pool_type.as_str(), "logical") {
                    source_name = Self::extract_between_tags(sec.as_str(), "name");
                } else if eq_str(pool_type.as_str(), "iscsi") {
                    source_host = Self::extract_attribute_value(sec.as_str(), "host", "name");
                    source_device = Self::extract_attribute_value(sec.as_str(), "device", "path");
                }
            },
            None => {},
        }
        Ok(
            StoragePoolXmlInfo {
                name,
                pool_type,
                path,
                source_name,
                source_host,
                source_device,
            },
        )
    }

    /// CIDR prefix length of a dotted-quad netmask.
    pub fn netmask_to_cidr(netmask: &str) -> (r: u8)
        ensures
            r == cidr_of(netmask@),
    {
        if eq_str(netmask, "255.255.255.255") { 32 }
        else if eq_str(netmask, "255.255.255.254") { 31 }
        else if eq_str(netmask, "255.255.255.252") { 30 }
        else if eq_str(netmask, "255.255.255.248") { 29 }
        else if eq_str(netmask, "255.255.255.240") { 28 }
        else if eq_str(netmask, "255.255.255.224") { 27 }
        else if eq_str(netmask, "255.255.255.192") { 26 }
        else if eq_str(netmask, "255.255.255.128") { 25 }
        else if eq_str(netmask, "255.255.255.0") { 24 }
        else if eq_str(netmask, "255.255.254.0") { 23 }
        else if eq_str(netmask, "255.255.252.0") { 22 }
        else if eq_str(netmask, "255.255.248.0") { 21 }
        else if eq_str(netmask, "255.255.240.0") { 20 }
        else if eq_str(netmask, "255.255.224.0") { 19 }
        else if eq_str(netmask, "255.255.192.0") { 18 }
        else if eq_str(netmask, "255.255.128.0") { 17 }
        else if eq_str(netmask, "255.255.0.0") { 16 }
        else if eq_str(netmask, "255.254.0.0") { 15 }
        else if eq_str(netmask, "255.252.0.0") { 14 }
        else if eq_str(netmask, "255.248.0.0") { 13 }
        else if eq_str(netmask, "255.240.0.0") { 12 }
        else if eq_str(netmask, "255.224.0.0") { 11 }
        else if eq_str(netmask, "255.192.0.0") { 10 }
        else if eq_str(netmask, "255.128.0.0") { 9 }
        else if eq_str(netmask, "255.0.0.0") { 8 }
        else { 24 }
    }
}

fn clone_storage_device_with_size(d: &StorageDevice, size_gb: u64) -> (r: StorageDevice)
    ensures
        r@ == (StorageDeviceView { size_gb, ..d@ }),
{
    StorageDevice {
        device: d.device.clone(),
        type_: d.type_.clone(),
        size_gb,
        path: (match &d.path {
            Some(p) => Some(p.clone()),
            None => None,
        }),
        bus: d.bus.clone(),
        cache: (match &d.cache {
            Some(c) => Some(c.clone()),
            None => None,
        }),
    }
}

/// Record the externally inspected size of each device, in order, and
/// refresh the aggregate size; a 0 stands for "no inspection result" and
/// is not an error. Everything else about the record is kept.
pub fn apply_disk_sizes(info: &mut VmXmlInfo, sizes: &Vec<u64>)
    requires
        old(info).storage_devices@.len() == sizes@.len(),
    ensures
        final(info).storage_devices@.len() == old(info).storage_devices@.len(),
        forall|i: int|
            0 <= i < sizes@.len() ==> final(info).storage_devices@[i]@ == (StorageDeviceView {
                size_gb: sizes@[i],
                ..old(info).storage_devices@[i]@
            }),
        final(info).disk_size_gb as int == total_disk_gb(
            final(info).storage_devices@.map_values(|d: StorageDevice| d@),
        ),
        final(info).name == old(info).name,
        final(info).uuid == old(info).uuid,
        final(info).memory_mb == old(info).memory_mb,
        final(info).vcpus == old(info).vcpus,
        final(info).os_type == old(info).os_type,
        final(info).os_variant == old(info).os_variant,
        final(info).network_interfaces == old(info).network_interfaces,
        final(info).vnc_port == old(info).vnc_port,
        final(info).spice_port == old(info).spice_port,
        final(info).description == old(info).description,
{
    let n = info.storage_devices.len();
    let mut out: Vec<StorageDevice> = Vec::new();
    let mut total: u64 = 0;
    let mut k: usize = 0;
    while k < n
        invariant
            n == info.storage_devices.len(),
            info.storage_devices@.len() == sizes@.len(),
            0 <= k <= n,
            out@.len() == k,
            forall|i: int|
                0 <= i < k ==> out@[i]@ == (StorageDeviceView {
                    size_gb: sizes@[i],
                    ..info.storage_devices@[i]@
                }),
            total as int == total_disk_gb(out@.map_values(|d: StorageDevice| d@)),
        decreases n - k,
    {
        let ghost pre = out@.map_values(|d: StorageDevice| d@);
        let d = clone_storage_device_with_size(&info.storage_devices[k], sizes[k]);
        let s = d.size_gb;
        out.push(d);
        proof {
            let post = out@.map_values(|d: StorageDevice| d@);
            assert(post.drop_last() =~= pre);
            assert(post.last() == d@);
        }
        if total > u64::MAX - s {
            total = u64::MAX;
        } else {
            total = total + s;
        }
        k += 1;
    }
    info.storage_devices = out;
    info.disk_size_gb = total;
}


/// No position in `s` starts `<` followed by `c1`, and `s` does not end
/// with a bare `<`: prepending `s` to anything cannot create an earlier
/// opening tag whose name starts with `c1`.
pub open spec fn clean_for(s: Seq<char>, c1: char) -> bool {
    &&& (forall|j: int| 0 <= j < s.len() - 1 ==> !((#[trigger] s[j]) == '<' && s[j + 1] == c1))
    &&& (s.len() > 0 ==> s[s.len() - 1] != '<')
}

pub proof fn lemma_clean_concat(a: Seq<char>, b: Seq<char>, c1: char)
    requires
        clean_for(a, c1),
        clean_for(b, c1),
    ensures
        clean_for(a + b, c1),
{
    let s = a + b;
    assert forall|j: int| 0 <= j < s.len() - 1 implies !((#[trigger] s[j]) == '<' && s[j + 1]
        == c1) by {
        if j < a.len() - 1 {
            assert(s[j] == a[j] && s[j + 1] == a[j + 1]);
        } else if j == a.len() - 1 {
            assert(s[j] == a[a.len() - 1]);
        } else {
            assert(s[j] == b[j - a.len()] && s[j + 1] == b[j + 1 - a.len()]);
        }
    }
    if s.len() > 0 {
        if b.len() > 0 {
            assert(s[s.len() - 1] == b[b.len() - 1]);
        } else {
            assert(s[s.len() - 1] == a[a.len() - 1]);
        }
    }
}

/// Text without `<` is clean for any scan.
pub proof fn lemma_clean_no_lt(s: Seq<char>, c1: char)
    requires
        forall|i: int| 0 <= i < s.len() ==> (#[trigger] s[i]) != '<',
    ensures
        clean_for(s, c1),
{
}

/// Digit strings are clean for any scan.
pub proof fn lemma_clean_digits(s: Seq<char>, c1: char)
    requires
        all_digits(s),
    ensures
        clean_for(s, c1),
{
    assert forall|i: int| 0 <= i < s.len() implies (#[trigger] s[i]) != '<' by {
        assert(is_digit_char(s[i]));
    }
    lemma_clean_no_lt(s, c1);
}

/// A span without a `<`-then-`p[1]` pair holds no occurrence of a pattern
/// that starts with `<`.
pub proof fn lemma_no_occ_span(s: Seq<char>, p: Seq<char>, lo: int, hi: int)
    requires
        p.len() >= 2,
        p[0] == '<',
        forall|j: int| lo <= j < hi ==> !((#[trigger] s[j]) == '<' && j + 1 < s.len() && s[j + 1]
            == p[1]),
    ensures
        forall|j: int| lo <= j < hi ==> !occurs_at(s, p, j),
{
    assert forall|j: int| lo <= j < hi implies !occurs_at(s, p, j) by {
        if occurs_at(s, p, j) {
            lemma_occurs_at_index(s, p, j, 0);
            lemma_occurs_at_index(s, p, j, 1);
        }
    }
}

/// The decisive shape lemma of the codec: in a document laid out as
/// `pre + <tag mid> + content + </tag> + post`, where nothing in `pre`
/// can open an earlier element of that name, the tag's attribute text has
/// no `>`, and the content has no `<`, extraction finds exactly `content`.
pub proof fn lemma_first_tag_extract(
    doc: Seq<char>,
    tag: Seq<char>,
    pre: Seq<char>,
    mid: Seq<char>,
    content: Seq<char>,
    post: Seq<char>,
)
    requires
        tag.len() >= 1,
        doc == pre + (lt_tag(tag) + mid + seq!['>']) + content + close_tag(tag) + post,
        clean_for(pre, tag[0]),
        forall|i: int| 0 <= i < mid.len() ==> (#[trigger] mid[i]) != '>',
        mid.len() > 0 ==> is_space_char(mid[0]),
        forall|i: int| 0 <= i < content.len() ==> (#[trigger] content[i]) != '<',
    ensures
        tag_content_spec(doc, tag) == Some(trim_spec(content)),
{
    let tl = tag.len() as int;
    let pos = pre.len() as int;
    let open = lt_tag(tag) + mid + seq!['>'];
    let close = close_tag(tag);
    let cs = pos + open.len();
    let k = cs + content.len();
    assert(doc.len() == pre.len() + open.len() + content.len() + close.len() + post.len());
    assert forall|t: int| 0 <= t < pre.len() implies #[trigger] doc[t] == pre[t] by {}
    assert forall|t: int| 0 <= t < open.len() implies #[trigger] doc[pos + t] == open[t] by {}
    assert forall|t: int| 0 <= t < content.len() implies #[trigger] doc[cs + t] == content[t] by {}
    assert forall|t: int| 0 <= t < close.len() implies #[trigger] doc[k + t] == close[t] by {}
    // The opening tag is an open of `tag` at `pos`.
    assert(doc.subrange(pos, pos + 1 + tl) =~= lt_tag(tag));
    assert(doc[pos + 1 + tl] == open[1 + tl]);
    if mid.len() == 0 {
        assert(open[1 + tl] == '>');
    } else {
        assert(open[1 + tl] == mid[0]);
    }
    assert(open_at(doc, tag, pos));
    // Nothing in `pre` opens the tag earlier.
    assert(lt_tag(tag)[0] == '<' && lt_tag(tag)[1] == tag[0]);
    assert forall|j: int| 0 <= j < pos implies !((#[trigger] doc[j]) == '<' && j + 1 < doc.len()
        && doc[j + 1] == tag[0]) by {
        if j < pos - 1 {
            assert(doc[j] == pre[j] && doc[j + 1] == pre[j + 1]);
        } else {
            assert(doc[j] == pre[pre.len() - 1]);
        }
    }
    lemma_no_occ_span(doc, lt_tag(tag), 0, pos);
    assert forall|j: int| 0 <= j < pos implies !(#[trigger] open_pred(doc, tag)(j)) by {
        assert(!occurs_at(doc, lt_tag(tag), j));
    }
    assert(open_pred(doc, tag)(pos));
    lemma_first_index_is(doc.len() as int, 0, open_pred(doc, tag), pos);
    assert(find_open(doc, tag, 0) == Some(pos));
    // The content starts right after the opening tag's `>`.
    let after = pos + 1 + tl;
    if mid.len() == 0 {
        assert(doc[after] == '>');
        assert(content_start(doc, tag, pos) == Some(cs));
    } else {
        assert(doc[after] != '>');
        let gpos = pos + open.len() - 1;
        assert(open[open.len() - 1] == '>');
        assert(doc[gpos] == '>');
        assert(char_pred(doc, '>')(gpos));
        assert forall|j: int| after <= j < gpos implies !(#[trigger] char_pred(doc, '>')(j)) by {
            assert(doc[j] == open[j - pos]);
            assert(open[j - pos] == mid[j - pos - 1 - tl]);
        }
        lemma_first_index_is(doc.len() as int, after, char_pred(doc, '>'), gpos);
        assert(content_start(doc, tag, pos) == Some(cs));
    }
    // The close tag follows the content immediately.
    assert(doc.subrange(k, k + close.len()) =~= close);
    assert(occurs_at(doc, close, k));
    assert forall|j: int| cs <= j < k implies !occurs_at(doc, close, j) by {
        if occurs_at(doc, close, j) {
            lemma_occurs_at_index(doc, close, j, 0);
            assert(doc[j] == content[j - cs]);
        }
    }
    lemma_find_sub_from_is(doc, close, cs, k);
    assert(doc.subrange(cs, k) =~= content);
}

} // verus!
