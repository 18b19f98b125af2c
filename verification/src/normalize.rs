//! Deterministic name normalization and alphabetical grouping: trim, canonical
//! decomposition, removal of combining marks on non-ASCII letters, and
//! lowercasing; then bucketing by the uppercase first letter of the
//! normalized form.

use vstd::prelude::*;
use vstd::multiset::Multiset;

verus! {

/// The string holding exactly the given characters.
/// Relies on `String`'s `FromIterator` impl: collecting characters yields the
/// string of those characters in order.
#[verifier::external_body]
pub fn chars_to_string(chars: &Vec<char>) -> (r: String)
    ensures
        r@ == chars@,
{
    chars.iter().collect()
}

/// Whether a character has the Unicode `White_Space` property.
pub uninterp spec fn is_white(c: char) -> bool;

/// Relies on `char::is_whitespace`: the result depends on the character alone
/// (a fixed Unicode property table).
#[verifier::external_body]
fn is_whitespace_char(c: char) -> (r: bool)
    ensures
        r == is_white(c),
{
    c.is_whitespace()
}

/// Whether a character is a Unicode combining mark (`General_Category = Mc`,
/// `Mn` or `Me`).
pub uninterp spec fn is_combining(c: char) -> bool;

/// Relies on `unicode_normalization::char::is_combining_mark`: a fixed
/// Unicode property table lookup, a function of the character alone.
#[verifier::external_body]
fn is_combining_mark_char(c: char) -> (r: bool)
    ensures
        r == is_combining(c),
{
    unicode_normalization::char::is_combining_mark(c)
}

/// The canonical decomposition (Unicode Normalization Form D) of a character
/// sequence.
pub uninterp spec fn nfd_of(s: Seq<char>) -> Seq<char>;

/// Relies on `unicode_normalization::UnicodeNormalization::nfd`: canonical
/// decomposition is a function of the input characters alone, and an empty
/// input decomposes to nothing.
#[verifier::external_body]
fn nfd_chars(chars: &Vec<char>) -> (r: Vec<char>)
    ensures
        r@ == nfd_of(chars@),
        chars@.len() == 0 ==> r@.len() == 0,
{
    let s: String = chars.iter().collect();
    unicode_normalization::UnicodeNormalization::nfd(s.as_str()).collect()
}

/// The Unicode lowercase form of a character sequence.
pub uninterp spec fn lower_of(s: Seq<char>) -> Seq<char>;

/// Relies on `str::to_lowercase`: the result depends on the characters alone
/// (a fixed Unicode case mapping), and an empty input stays empty.
#[verifier::external_body]
fn lowercase_chars(chars: &Vec<char>) -> (r: Vec<char>)
    ensures
        r@ == lower_of(chars@),
        chars@.len() == 0 ==> r@.len() == 0,
{
    let s: String = chars.iter().collect();
    s.to_lowercase().chars().collect()
}

/// The sequence with leading whitespace removed.
pub open spec fn trim_front_spec(s: Seq<char>) -> Seq<char>
    decreases s.len(),
{
    if s.len() == 0 {
        s
    } else if is_white(s[0]) {
        trim_front_spec(s.drop_first())
    } else {
        s
    }
}

/// The sequence with trailing whitespace removed.
pub open spec fn trim_back_spec(s: Seq<char>) -> Seq<char>
    decreases s.len(),
{
    if s.len() == 0 {
        s
    } else if is_white(s.last()) {
        trim_back_spec(s.drop_last())
    } else {
        s
    }
}

/// The sequence with leading and trailing whitespace removed.
pub open spec fn trim_spec(s: Seq<char>) -> Seq<char> {
    trim_back_spec(trim_front_spec(s))
}

/// Trimming the front skips exactly the leading run of whitespace.
proof fn lemma_trim_front_run(s: Seq<char>, i: int)
    requires
        0 <= i <= s.len(),
        forall|k: int| 0 <= k < i ==> is_white(#[trigger] s[k]),
        i == s.len() || !is_white(s[i]),
    ensures
        trim_front_spec(s) == s.subrange(i, s.len() as int),
    decreases i,
{
    if i == 0 {
        assert(s.subrange(0, s.len() as int) =~= s);
    } else {
        lemma_trim_front_run(s.drop_first(), i - 1);
        assert(s.drop_first().subrange(i - 1, s.drop_first().len() as int) =~= s.subrange(
            i,
            s.len() as int,
        ));
    }
}

/// Trimming the back drops exactly the trailing run of whitespace.
proof fn lemma_trim_back_run(s: Seq<char>, j: int)
    requires
        0 <= j <= s.len(),
        forall|k: int| j <= k < s.len() ==> is_white(#[trigger] s[k]),
        j == 0 || !is_white(s[j - 1]),
    ensures
        trim_back_spec(s) == s.subrange(0, j),
    decreases s.len() - j,
{
    if j == s.len() {
        if s.len() == 0 {
            assert(s.subrange(0, 0) =~= s);
        } else if is_white(s.last()) {
            lemma_trim_back_run(s.drop_last(), j - 1);
            assert(s.drop_last().subrange(0, j - 1) =~= s.subrange(0, j - 1));
            assert(s.subrange(0, j - 1) =~= s.subrange(0, j).drop_last());
            lemma_trim_back_run(s.subrange(0, j), j);
            assert(trim_back_spec(s) == s.subrange(0, j));
        } else {
            assert(s.subrange(0, j) =~= s);
        }
    } else {
        assert(is_white(s.last()));
        lemma_trim_back_run(s.drop_last(), j);
        assert(s.drop_last().subrange(0, j) =~= s.subrange(0, j));
    }
}

/// Remove leading and trailing whitespace from a character sequence.
pub fn trim_chars(v: &Vec<char>) -> (r: Vec<char>)
    ensures
        r@ == trim_spec(v@),
{
    let n = v.len();
    let mut start: usize = 0;
    loop
        invariant
            start <= n,
            n == v@.len(),
            forall|k: int| 0 <= k < start ==> is_white(#[trigger] v@[k]),
        ensures
            start <= n,
            n == v@.len(),
            forall|k: int| 0 <= k < start ==> is_white(#[trigger] v@[k]),
            start == n || !is_white(v@[start as int]),
        decreases n - start,
    {
        if start < n {
            if is_whitespace_char(v[start]) {
                start = start + 1;
            } else {
                break ;
            }
        } else {
            break ;
        }
    }
    let mut end: usize = n;
    loop
        invariant
            start <= end <= n,
            n == v@.len(),
            start == n || !is_white(v@[start as int]),
            forall|k: int| end <= k < n ==> is_white(#[trigger] v@[k]),
        ensures
            start <= end <= n,
            n == v@.len(),
            forall|k: int| end <= k < n ==> is_white(#[trigger] v@[k]),
            end == start || !is_white(v@[end - 1]),
        decreases end,
    {
        if end > start {
            if is_whitespace_char(v[end - 1]) {
                end = end - 1;
            } else {
                break ;
            }
        } else {
            break ;
        }
    }
    let mut r: Vec<char> = Vec::new();
    let mut k: usize = start;
    while k < end
        invariant
            start <= k <= end <= n,
            n == v@.len(),
            r@ == v@.subrange(start as int, k as int),
        decreases end - k,
    {
        r.push(v[k]);
        assert(r@ =~= v@.subrange(start as int, k + 1));
        k = k + 1;
    }
    proof {
        lemma_trim_front_run(v@, start as int);
        let front = v@.subrange(start as int, n as int);
        if end == start {
            lemma_trim_back_run(front, 0);
            assert(front.subrange(0, 0) =~= v@.subrange(start as int, end as int));
        } else {
            assert(!is_white(front[end - start - 1]));
            lemma_trim_back_run(front, end - start);
            assert(front.subrange(0, end - start) =~= v@.subrange(start as int, end as int));
        }
    }
    r
}

/// Keep ASCII characters and any character that is not a combining mark.
pub open spec fn keep_char(c: char) -> bool {
    (c as u32) < 128 || !is_combining(c)
}

/// The sequence with combining marks on non-ASCII characters removed.
pub open spec fn strip_marks_spec(s: Seq<char>) -> Seq<char> {
    s.filter(|c: char| keep_char(c))
}

/// Drop combining marks on non-ASCII characters.
fn strip_marks(v: &Vec<char>) -> (r: Vec<char>)
    ensures
        r@ == strip_marks_spec(v@),
{
    broadcast use vstd::seq_lib::group_filter_ensures;

    let n = v.len();
    let mut r: Vec<char> = Vec::new();
    let mut i: usize = 0;
    while i < n
        invariant
            i <= n,
            n == v@.len(),
            r@ == strip_marks_spec(v@.take(i as int)),
        decreases n - i,
    {
        let c = v[i];
        let keep = (c as u32) < 128 || !is_combining_mark_char(c);
        proof {
            let pred = |c: char| keep_char(c);
            let prev = v@.take(i as int);
            let cur = v@.take(i + 1);
            assert(cur.drop_last() =~= prev);
            assert(cur.last() == v@[i as int]);
            reveal_with_fuel(Seq::filter, 2);
            if keep_char(v@[i as int]) {
                assert(cur.filter(pred) == prev.filter(pred).push(v@[i as int]));
            } else {
                assert(cur.filter(pred) == prev.filter(pred));
            }
        }
        if keep {
            r.push(c);
        }
        i = i + 1;
    }
    proof {
        assert(v@.take(n as int) =~= v@);
    }
    r
}

/// The normalized form of a name: trim whitespace, decompose canonically,
/// drop combining marks on non-ASCII letters, lowercase.
pub open spec fn normalize_spec(s: Seq<char>) -> Seq<char> {
    lower_of(strip_marks_spec(nfd_of(trim_spec(s))))
}

/// Normalize a name, as characters.
pub fn normalize_chars(name: &str) -> (r: Vec<char>)
    ensures
        r@ == normalize_spec(name@),
{
    let cs = str_chars(name);
    let t = trim_chars(&cs);
    let d = nfd_chars(&t);
    let f = strip_marks(&d);
    lowercase_chars(&f)
}

/// Normalize a name: `lowercase(strip_combining_marks(nfd(trim(name))))`.
pub fn normalize_name(name: &str) -> (r: String)
    ensures
        r@ == normalize_spec(name@),
{
    let chars = normalize_chars(name);
    chars_to_string(&chars)
}

/// The characters of a string, in order.
pub fn str_chars(s: &str) -> (r: Vec<char>)
    ensures
        r@ == s@,
{
    let len = s.unicode_len();
    let mut r: Vec<char> = Vec::new();
    let mut i: usize = 0;
    while i < len
        invariant
            len == s@.len(),
            i <= len,
            r@ == s@.take(i as int),
        decreases len - i,
    {
        r.push(s.get_char(i));
        i = i + 1;
        assert(r@ =~= s@.take(i as int));
    }
    assert(r@ =~= s@);
    r
}

} // verus!

verus! {

/// Characters with equal code points are equal.
proof fn lemma_char_code_inj(a: char, b: char)
    requires
        a as u32 == b as u32,
    ensures
        a == b,
{
}

/// Lexicographic order on character sequences by code point.
pub open spec fn lex_leq(a: Seq<char>, b: Seq<char>) -> bool
    decreases a.len(),
{
    if a.len() == 0 {
        true
    } else if b.len() == 0 {
        false
    } else if (a[0] as u32) < (b[0] as u32) {
        true
    } else if (a[0] as u32) > (b[0] as u32) {
        false
    } else {
        lex_leq(a.drop_first(), b.drop_first())
    }
}

/// The lexicographic order is total.
pub proof fn lemma_lex_leq_total(a: Seq<char>, b: Seq<char>)
    ensures
        lex_leq(a, b) || lex_leq(b, a),
    decreases a.len(),
{
    if a.len() != 0 && b.len() != 0 && (a[0] as u32) == (b[0] as u32) {
        lemma_lex_leq_total(a.drop_first(), b.drop_first());
    }
}

/// The lexicographic order is transitive.
pub proof fn lemma_lex_leq_trans(a: Seq<char>, b: Seq<char>, c: Seq<char>)
    requires
        lex_leq(a, b),
        lex_leq(b, c),
    ensures
        lex_leq(a, c),
    decreases a.len(),
{
    if a.len() != 0 && b.len() != 0 && c.len() != 0 && (a[0] as u32) == (b[0] as u32) && (b[0]
        as u32) == (c[0] as u32) {
        lemma_lex_leq_trans(a.drop_first(), b.drop_first(), c.drop_first());
    }
}

/// Skipping a common prefix does not change the lexicographic comparison.
proof fn lemma_lex_leq_skip(a: Seq<char>, b: Seq<char>, i: int)
    requires
        0 <= i <= a.len(),
        i <= b.len(),
        forall|k: int| 0 <= k < i ==> a[k] == b[k],
    ensures
        lex_leq(a, b) == lex_leq(a.skip(i), b.skip(i)),
    decreases i,
{
    if i == 0 {
        assert(a.skip(0) =~= a);
        assert(b.skip(0) =~= b);
    } else {
        assert(a.len() > 0 && b.len() > 0 && a[0] == b[0]);
        lemma_lex_leq_skip(a.drop_first(), b.drop_first(), i - 1);
        assert(a.drop_first().skip(i - 1) =~= a.skip(i));
        assert(b.drop_first().skip(i - 1) =~= b.skip(i));
    }
}

/// Compare two character sequences lexicographically by code point.
pub fn lex_leq_chars(a: &Vec<char>, b: &Vec<char>) -> (r: bool)
    ensures
        r == lex_leq(a@, b@),
{
    let an = a.len();
    let bn = b.len();
    let mut i: usize = 0;
    loop
        invariant
            i <= an,
            i <= bn,
            an == a@.len(),
            bn == b@.len(),
            forall|k: int| 0 <= k < i ==> a@[k] == b@[k],
        ensures
            i <= an,
            i <= bn,
            forall|k: int| 0 <= k < i ==> a@[k] == b@[k],
            (i == an || i == bn) || ((a@[i as int] as u32) != (b@[i as int] as u32)),
        decreases an - i,
    {
        if i < an && i < bn {
            if (a[i] as u32) == (b[i] as u32) {
                proof {
                    lemma_char_code_inj(a@[i as int], b@[i as int]);
                }
                i = i + 1;
            } else {
                break ;
            }
        } else {
            break ;
        }
    }
    proof {
        lemma_lex_leq_skip(a@, b@, i as int);
    }
    if i == an {
        true
    } else if i == bn {
        false
    } else {
        (a[i] as u32) < (b[i] as u32)
    }
}

/// Uppercase form of an ASCII lowercase letter; any other character is
/// unchanged.
pub open spec fn ascii_upper(c: char) -> char {
    match c {
        'a' => 'A',
        'b' => 'B',
        'c' => 'C',
        'd' => 'D',
        'e' => 'E',
        'f' => 'F',
        'g' => 'G',
        'h' => 'H',
        'i' => 'I',
        'j' => 'J',
        'k' => 'K',
        'l' => 'L',
        'm' => 'M',
        'n' => 'N',
        'o' => 'O',
        'p' => 'P',
        'q' => 'Q',
        'r' => 'R',
        's' => 'S',
        't' => 'T',
        'u' => 'U',
        'v' => 'V',
        'w' => 'W',
        'x' => 'X',
        'y' => 'Y',
        'z' => 'Z',
        _ => c,
    }
}

fn ascii_upper_exec(c: char) -> (r: char)
    ensures
        r == ascii_upper(c),
{
    match c {
        'a' => 'A',
        'b' => 'B',
        'c' => 'C',
        'd' => 'D',
        'e' => 'E',
        'f' => 'F',
        'g' => 'G',
        'h' => 'H',
        'i' => 'I',
        'j' => 'J',
        'k' => 'K',
        'l' => 'L',
        'm' => 'M',
        'n' => 'N',
        'o' => 'O',
        'p' => 'P',
        'q' => 'Q',
        'r' => 'R',
        's' => 'S',
        't' => 'T',
        'u' => 'U',
        'v' => 'V',
        'w' => 'W',
        'x' => 'X',
        'y' => 'Y',
        'z' => 'Z',
        _ => c,
    }
}

/// Whether a character is an ASCII letter.
pub open spec fn is_ascii_letter(c: char) -> bool {
    (97 <= c as u32 && c as u32 <= 122) || (65 <= c as u32 && c as u32 <= 90)
}

/// The grouping bucket for a normalized form: its uppercase first letter, or
/// the fallback bucket `'#'` when the form is empty or does not start with an
/// ASCII letter.
pub open spec fn bucket_of(norm: Seq<char>) -> char {
    if norm.len() == 0 {
        '#'
    } else if is_ascii_letter(norm[0]) {
        ascii_upper(norm[0])
    } else {
        '#'
    }
}

/// The bucket a guild name falls under: the bucket of its normalized form.
pub open spec fn guild_bucket(name: Seq<char>) -> char {
    bucket_of(normalize_spec(name))
}

fn bucket_char(norm: &Vec<char>) -> (r: char)
    ensures
        r == bucket_of(norm@),
{
    if norm.len() == 0 {
        '#'
    } else {
        let c = norm[0];
        let u = c as u32;
        if (97 <= u && u <= 122) || (65 <= u && u <= 90) {
            ascii_upper_exec(c)
        } else {
            '#'
        }
    }
}

} // verus!

verus! {

/// A name prepared for grouping: its bucket letter and normalized form are
/// computed once and carried beside it.
struct GroupItem {
    key: char,
    name: String,
    norm: Vec<char>,
}

/// The carried key and normalized form match the name.
spec fn group_item_wf(it: GroupItem) -> bool {
    &&& it.norm@ == normalize_spec(it.name@)
    &&& it.key == bucket_of(it.norm@)
}

/// Grouping order: bucket letter first, then the normalized form.
spec fn item_leq(a: GroupItem, b: GroupItem) -> bool {
    ||| (a.key as u32) < (b.key as u32)
    ||| ((a.key as u32) == (b.key as u32) && lex_leq(a.norm@, b.norm@))
}

proof fn lemma_item_leq_total(a: GroupItem, b: GroupItem)
    ensures
        item_leq(a, b) || item_leq(b, a),
{
    lemma_lex_leq_total(a.norm@, b.norm@);
}

proof fn lemma_item_leq_trans(a: GroupItem, b: GroupItem, c: GroupItem)
    requires
        item_leq(a, b),
        item_leq(b, c),
    ensures
        item_leq(a, c),
{
    if (a.key as u32) == (b.key as u32) && (b.key as u32) == (c.key as u32) {
        lemma_lex_leq_trans(a.norm@, b.norm@, c.norm@);
    }
}

fn item_leq_exec(a: &GroupItem, b: &GroupItem) -> (r: bool)
    ensures
        r == item_leq(*a, *b),
{
    let au = a.key as u32;
    let bu = b.key as u32;
    if au < bu {
        true
    } else if au > bu {
        false
    } else {
        lex_leq_chars(&a.norm, &b.norm)
    }
}

spec fn items_sorted(s: Seq<GroupItem>) -> bool {
    forall|i: int, j: int| 0 <= i < j < s.len() ==> item_leq(#[trigger] s[i], #[trigger] s[j])
}

/// Sequences with equal multisets have equal multisets of mapped values.
proof fn lemma_map_values_to_multiset<A, B>(s: Seq<A>, t: Seq<A>, f: spec_fn(A) -> B)
    requires
        s.to_multiset() == t.to_multiset(),
    ensures
        s.map_values(f).to_multiset() == t.map_values(f).to_multiset(),
    decreases s.len(),
{
    broadcast use vstd::seq_lib::group_to_multiset_ensures;
    broadcast use vstd::multiset::group_multiset_axioms;

    if s.len() == 0 {
        assert(s.to_multiset().len() == 0);
        assert(t.to_multiset().len() == 0);
        assert(t.len() == 0);
        assert(s.map_values(f) =~= Seq::<B>::empty());
        assert(t.map_values(f) =~= Seq::<B>::empty());
        assert(s.map_values(f).to_multiset() =~= t.map_values(f).to_multiset());
    } else {
        let x = s[0];
        assert(s.contains(x));
        assert(s.to_multiset().count(x) > 0);
        assert(t.to_multiset().count(x) > 0);
        assert(t.contains(x));
        let j = choose|j: int| 0 <= j < t.len() && t[j] == x;
        let s1 = s.remove(0);
        let t1 = t.remove(j);
        assert(s1.to_multiset() == s.to_multiset().remove(x));
        assert(t1.to_multiset() == t.to_multiset().remove(x));
        lemma_map_values_to_multiset(s1, t1, f);
        assert(s1.map_values(f) =~= s.map_values(f).remove(0));
        assert(t1.map_values(f) =~= t.map_values(f).remove(j));
        assert(s.map_values(f).remove(0).to_multiset() == s.map_values(f).to_multiset().remove(
            f(x),
        ));
        assert(t.map_values(f)[j] == f(x));
        assert(t.map_values(f).remove(j).to_multiset() == t.map_values(f).to_multiset().remove(
            f(x),
        ));
        assert(s.map_values(f).to_multiset().count(f(x)) > 0) by {
            assert(s.map_values(f)[0] == f(x));
            assert(s.map_values(f).contains(f(x)));
        }
        assert(t.map_values(f).to_multiset().count(f(x)) > 0) by {
            assert(t.map_values(f).contains(f(x)));
        }
        assert(s.map_values(f).to_multiset() =~= t.map_values(f).to_multiset()) by {
            let sm = s.map_values(f).to_multiset();
            let tm = t.map_values(f).to_multiset();
            assert forall|e: B| sm.count(e) == tm.count(e) by {
                if e == f(x) {
                    assert(sm.remove(f(x)).count(e) == tm.remove(f(x)).count(e));
                } else {
                    assert(sm.remove(f(x)).count(e) == sm.count(e));
                    assert(tm.remove(f(x)).count(e) == tm.count(e));
                }
            }
        }
    }
}

/// Sort grouping items by bucket letter, then normalized form; a stable
/// insertion sort.
fn sort_items(items: Vec<GroupItem>) -> (r: Vec<GroupItem>)
    ensures
        r@.to_multiset() == items@.to_multiset(),
        items_sorted(r@),
        forall|i: int| 0 <= i < r@.len() ==> items@.contains(#[trigger] r@[i]),
    decreases items@.len(),
{
    broadcast use vstd::seq_lib::group_to_multiset_ensures;
    broadcast use vstd::multiset::group_multiset_axioms;

    let mut src = items;
    let ghost orig = src@;
    let mut r: Vec<GroupItem> = Vec::new();
    loop
        invariant
            r@.to_multiset().add(src@.to_multiset()) =~= orig.to_multiset(),
            items_sorted(r@),
            forall|i: int| 0 <= i < r@.len() ==> orig.contains(#[trigger] r@[i]),
            forall|i: int| 0 <= i < src@.len() ==> orig.contains(#[trigger] src@[i]),
        ensures
            src@.len() == 0,
        decreases src@.len(),
    {
        let ghost src_prev = src@;
        let popped = src.pop();
        match popped {
            None => {
                break ;
            },
            Some(x) => {
                proof {
                    broadcast use vstd::seq_lib::group_to_multiset_ensures;
                    broadcast use vstd::multiset::group_multiset_axioms;

                    assert(src_prev =~= src@.push(x));
                    assert(src@.push(x).to_multiset() =~= src@.to_multiset().insert(x));
                    assert(src_prev.to_multiset() =~= src@.to_multiset().insert(x));
                    assert(src_prev.contains(x)) by {
                        assert(src_prev[src_prev.len() - 1] == x);
                    }
                    assert forall|i: int| 0 <= i < src@.len() implies orig.contains(
                        #[trigger] src@[i],
                    ) by {
                        assert(src_prev[i] == src@[i]);
                    }
                }
                let ghost r_prev = r@;
                let mut p: usize = 0;
                loop
                    invariant
                        p <= r@.len(),
                        r@ == r_prev,
                        forall|k: int| 0 <= k < p ==> item_leq(#[trigger] r@[k], x),
                    ensures
                        p <= r@.len(),
                        r@ == r_prev,
                        forall|k: int| 0 <= k < p ==> item_leq(#[trigger] r@[k], x),
                        p == r@.len() || !item_leq(r@[p as int], x),
                    decreases r@.len() - p,
                {
                    if p < r.len() {
                        if item_leq_exec(&r[p], &x) {
                            p = p + 1;
                        } else {
                            break ;
                        }
                    } else {
                        break ;
                    }
                }
                proof {
                    r_prev.insert_ensures(p as int, x);
                    assert forall|i: int, j: int|
                        0 <= i < j < r_prev.insert(p as int, x).len() implies item_leq(
                        #[trigger] r_prev.insert(p as int, x)[i],
                        #[trigger] r_prev.insert(p as int, x)[j],
                    ) by {
                        let s2 = r_prev.insert(p as int, x);
                        if j < p {
                            assert(s2[i] == r_prev[i] && s2[j] == r_prev[j]);
                        } else if i > p {
                            assert(s2[i] == r_prev[i - 1] && s2[j] == r_prev[j - 1]);
                        } else if i < p && j == p {
                            assert(s2[i] == r_prev[i] && s2[j] == x);
                        } else if i < p && j > p {
                            assert(s2[i] == r_prev[i] && s2[j] == r_prev[j - 1]);
                        } else if i == p {
                            assert(s2[i] == x && s2[j] == r_prev[j - 1]);
                            if p < r_prev.len() {
                                lemma_item_leq_total(r_prev[p as int], x);
                                assert(item_leq(x, r_prev[p as int]));
                                if j - 1 > p {
                                    lemma_item_leq_trans(x, r_prev[p as int], r_prev[j - 1]);
                                }
                            }
                        }
                    }
                }
                r.insert(p, x);
                proof {
                    broadcast use vstd::seq_lib::group_to_multiset_ensures;
                    broadcast use vstd::multiset::group_multiset_axioms;

                    assert(r@ == r_prev.insert(p as int, x));
                    assert(r_prev.insert(p as int, x).to_multiset() =~= r_prev.to_multiset().insert(
                        x,
                    ));
                    assert(r@.to_multiset().add(src@.to_multiset()) =~= orig.to_multiset()) by {
                        assert(r_prev.to_multiset().add(src_prev.to_multiset())
                            =~= orig.to_multiset());
                        assert(r@.to_multiset() =~= r_prev.to_multiset().insert(x));
                        assert(src_prev.to_multiset() =~= src@.to_multiset().insert(x));
                    }
                }
            },
        }
    }
    proof {
        assert(src@.to_multiset().len() == 0);
        assert(src@.to_multiset() =~= Multiset::empty());
        assert(r@.to_multiset().add(Multiset::empty()) =~= r@.to_multiset());
        assert forall|i: int| 0 <= i < r@.len() implies orig.contains(#[trigger] r@[i]) by {}
    }
    r
}

} // verus!

verus! {

/// The views of a list of names.
pub open spec fn names_of(b: Seq<String>) -> Seq<Seq<char>> {
    b.map_values(|s: String| s@)
}

/// The names held by a bucket list, bucket by bucket, in order.
pub open spec fn buckets_names(bs: Seq<(char, Vec<String>)>) -> Seq<Seq<char>>
    decreases bs.len(),
{
    if bs.len() == 0 {
        Seq::empty()
    } else {
        names_of(bs.first().1@) + buckets_names(bs.drop_first())
    }
}

spec fn item_names(s: Seq<GroupItem>) -> Seq<Seq<char>> {
    s.map_values(|it: GroupItem| it.name@)
}

proof fn lemma_buckets_names_push(bs: Seq<(char, Vec<String>)>, p: (char, Vec<String>))
    ensures
        buckets_names(bs.push(p)) == buckets_names(bs) + names_of(p.1@),
    decreases bs.len(),
{
    if bs.len() == 0 {
        let e = Seq::<(char, Vec<String>)>::empty();
        assert(bs.push(p).drop_first() =~= e);
        assert(bs.push(p).first() == p);
        assert(buckets_names(e) == Seq::<Seq<char>>::empty());
        assert(buckets_names(bs.push(p)) == names_of(p.1@) + buckets_names(e));
        assert(names_of(p.1@) + Seq::<Seq<char>>::empty() =~= names_of(p.1@));
        assert(buckets_names(bs) + names_of(p.1@) =~= names_of(p.1@));
    } else {
        assert(bs.push(p).drop_first() =~= bs.drop_first().push(p));
        lemma_buckets_names_push(bs.drop_first(), p);
        assert(bs.push(p).first() == bs.first());
        assert(names_of(bs.first().1@) + (buckets_names(bs.drop_first()) + names_of(p.1@)) =~= (
        names_of(bs.first().1@) + buckets_names(bs.drop_first())) + names_of(p.1@));
    }
}

/// What it means for `r` to be the alphabetical grouping of `names`: the
/// buckets together hold exactly the input names, bucket keys strictly
/// increase, every bucket is non-empty and labeled by its members' bucket
/// letter, and each bucket's members are sorted by their normalized form.
pub open spec fn is_grouping_of(r: Seq<(char, Vec<String>)>, names: Seq<String>) -> bool {
    &&& buckets_names(r).to_multiset() == names_of(names).to_multiset()
    &&& forall|b1: int, b2: int|
        0 <= b1 < b2 < r.len() ==> (#[trigger] r[b1].0 as u32) < (#[trigger] r[b2].0 as u32)
    &&& forall|b: int| 0 <= b < r.len() ==> (#[trigger] r[b].1@.len()) > 0
    &&& forall|b: int, k: int|
        0 <= b < r.len() && 0 <= k < r[b].1@.len() ==> guild_bucket(#[trigger] r[b].1@[k]@)
            == r[b].0
    &&& forall|b: int, k1: int, k2: int|
        0 <= b < r.len() && 0 <= k1 < k2 < r[b].1@.len() ==> lex_leq(
            normalize_spec(#[trigger] r[b].1@[k1]@),
            normalize_spec(#[trigger] r[b].1@[k2]@),
        )
}

/// Group guild names into buckets keyed by the uppercase first letter of
/// their normalized form (fallback bucket `'#'`), with bucket keys strictly
/// increasing, every bucket non-empty, each bucket's members sorted by their
/// normalized form, and the buckets together holding exactly the input names.
#[verifier::rlimit(50)]
pub fn group_guilds(guilds: Vec<String>) -> (r: Vec<(char, Vec<String>)>)
    ensures
        is_grouping_of(r@, guilds@),
{
    let n = guilds.len();
    let mut items: Vec<GroupItem> = Vec::new();
    let mut i: usize = 0;
    while i < n
        invariant
            i <= n,
            n == guilds@.len(),
            items@.len() == i,
            forall|k: int| 0 <= k < i ==> group_item_wf(#[trigger] items@[k]),
            forall|k: int| 0 <= k < i ==> (#[trigger] items@[k].name) == guilds@[k],
        decreases n - i,
    {
        let name = guilds[i].clone();
        let norm = normalize_chars(name.as_str());
        let key = bucket_char(&norm);
        items.push(GroupItem { key, name, norm });
        i = i + 1;
    }
    let ghost items_v = items@;
    let sorted = sort_items(items);
    let ghost s = sorted@;
    proof {
        assert(item_names(items_v) =~= names_of(guilds@));
        lemma_map_values_to_multiset(s, items_v, |it: GroupItem| it.name@);
        assert(item_names(s) =~= s.map_values(|it: GroupItem| it.name@));
        assert(item_names(items_v) =~= items_v.map_values(|it: GroupItem| it.name@));
        assert(item_names(s).to_multiset() == names_of(guilds@).to_multiset());
        assert forall|k: int| 0 <= k < s.len() implies group_item_wf(#[trigger] s[k]) by {
            assert(items_v.contains(s[k]));
        }
    }
    let m = sorted.len();
    let mut out: Vec<(char, Vec<String>)> = Vec::new();
    let mut i: usize = 0;
    while i < m
        invariant
            i <= m,
            m == s.len(),
            sorted@ == s,
            items_sorted(s),
            forall|k: int| 0 <= k < s.len() ==> group_item_wf(#[trigger] s[k]),
            buckets_names(out@) == item_names(s.take(i as int)),
            forall|b: int| 0 <= b < out@.len() ==> (#[trigger] out@[b].1@.len()) > 0,
            forall|b1: int, b2: int|
                0 <= b1 < b2 < out@.len() ==> (#[trigger] out@[b1].0 as u32) < (#[trigger] out@[
                    b2
                ].0 as u32),
            forall|b: int, k: int|
                0 <= b < out@.len() && 0 <= k < out@[b].1@.len() ==> guild_bucket(
                    #[trigger] out@[b].1@[k]@,
                ) == out@[b].0,
            forall|b: int, k1: int, k2: int|
                0 <= b < out@.len() && 0 <= k1 < k2 < out@[b].1@.len() ==> lex_leq(
                    normalize_spec(#[trigger] out@[b].1@[k1]@),
                    normalize_spec(#[trigger] out@[b].1@[k2]@),
                ),
            i == 0 ==> out@.len() == 0,
            i > 0 ==> out@.len() > 0 && out@.last().0 == s[i - 1].key,
            i > 0 ==> forall|k: int|
                0 <= k < out@.last().1@.len() ==> lex_leq(
                    normalize_spec(#[trigger] out@.last().1@[k]@),
                    normalize_spec(s[i - 1].name@),
                ),
        decreases m - i,
    {
        let x_name = sorted[i].name.clone();
        let k = sorted[i].key;
        let ghost out_prev = out@;
        proof {
            assert(s.take(i + 1) =~= s.take(i as int).push(s[i as int]));
            assert(item_names(s.take(i + 1)) =~= item_names(s.take(i as int)).push(
                s[i as int].name@,
            ));
        }
        let mut append_last = false;
        if out.len() > 0 {
            if out[out.len() - 1].0 == k {
                append_last = true;
            }
        }
        if append_last {
            let lastb_opt = out.pop();
            let mut lastb = lastb_opt.unwrap();
            let ghost lastb_v = lastb;
            lastb.1.push(x_name);
            let ghost newb = lastb;
            out.push(lastb);
            proof {
                assert(out_prev =~= out_prev.drop_last().push(lastb_v));
                lemma_buckets_names_push(out_prev.drop_last(), lastb_v);
                lemma_buckets_names_push(out_prev.drop_last(), newb);
                assert(out@ == out_prev.drop_last().push(newb));
                assert(names_of(newb.1@) =~= names_of(lastb_v.1@).push(s[i as int].name@));
                assert(buckets_names(out@) =~= buckets_names(out_prev).push(s[i as int].name@));
                assert(buckets_names(out@) =~= item_names(s.take(i + 1)));
                // The appended name follows every member of the bucket: the
                // items are sorted and share the bucket letter.
                assert(i > 0 && lastb_v.0 == s[i - 1].key && newb.0 == s[i as int].key);
                assert(item_leq(s[i - 1], s[i as int]));
                assert((s[i - 1].key as u32) == (s[i as int].key as u32));
                assert(lex_leq(s[i - 1].norm@, s[i as int].norm@));
                assert forall|k2: int| 0 <= k2 < newb.1@.len() implies lex_leq(
                    normalize_spec(#[trigger] newb.1@[k2]@),
                    normalize_spec(s[i as int].name@),
                ) by {
                    lemma_lex_leq_total(normalize_spec(s[i as int].name@), normalize_spec(
                        s[i as int].name@,
                    ));
                    if k2 < lastb_v.1@.len() {
                        assert(newb.1@[k2] == lastb_v.1@[k2]);
                        lemma_lex_leq_trans(
                            normalize_spec(lastb_v.1@[k2]@),
                            normalize_spec(s[i - 1].name@),
                            normalize_spec(s[i as int].name@),
                        );
                    } else {
                        assert(newb.1@[k2] == s[i as int].name);
                    }
                }
                assert(guild_bucket(s[i as int].name@) == s[i as int].key);
            }
        } else {
            let mut bvec: Vec<String> = Vec::new();
            bvec.push(x_name);
            out.push((k, bvec));
            proof {
                lemma_buckets_names_push(out_prev, out@.last());
                assert(out@ == out_prev.push(out@.last()));
                assert(names_of(out@.last().1@) =~= seq![s[i as int].name@]);
                assert(buckets_names(out@) =~= buckets_names(out_prev).push(s[i as int].name@));
                assert(buckets_names(out@) =~= item_names(s.take(i + 1)));
                assert(guild_bucket(s[i as int].name@) == s[i as int].key);
                if i > 0 {
                    // A fresh bucket means a strictly larger bucket letter.
                    assert(out_prev.last().0 == s[i - 1].key);
                    assert(item_leq(s[i - 1], s[i as int]));
                    if (s[i - 1].key as u32) == (s[i as int].key as u32) {
                        lemma_char_code_inj(s[i - 1].key, s[i as int].key);
                        assert(false);
                    }
                    assert((out_prev.last().0 as u32) < (k as u32));
                    assert forall|b1: int| 0 <= b1 < out_prev.len() implies (#[trigger] out_prev[
                        b1
                    ].0 as u32) < (k as u32) by {
                        if b1 < out_prev.len() - 1 {
                            assert((out_prev[b1].0 as u32) < (out_prev.last().0 as u32));
                        }
                    }
                }
                lemma_lex_leq_total(normalize_spec(s[i as int].name@), normalize_spec(
                    s[i as int].name@,
                ));
            }
        }
        i = i + 1;
    }
    proof {
        assert(s.take(m as int) =~= s);
    }
    out
}

} // verus!
