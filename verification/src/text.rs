//! Character-level helpers shared by the parsers and formatters.

use vstd::prelude::*;

verus! {

broadcast use vstd::string::group_string_axioms;

/// The characters of `s`, in order.
pub fn chars_of(s: &str) -> (v: Vec<char>)
    ensures
        v@ == s@,
{
    let mut v: Vec<char> = Vec::new();
    for c in iter: s.chars()
        invariant
            iter.seq() == s@,
            v@ == iter.seq().take(iter.index()),
    {
        v.push(c);
    }
    v
}

/// `String::push`: appends one character.
#[verifier::external_body]
fn string_push(s: &mut String, c: char)
    ensures
        final(s)@ == old(s)@.push(c),
{
    s.push(c);
}

/// A `String` holding exactly the characters of `v`.
pub fn string_from_chars(v: &[char]) -> (s: String)
    ensures
        s@ == v@,
{
    let mut s = String::new();
    let mut i: usize = 0;
    while i < v.len()
        invariant
            i <= v@.len(),
            s@ == v@.take(i as int),
        decreases v@.len() - i,
    {
        string_push(&mut s, v[i]);
        assert(v@.take(i as int).push(v@[i as int]) =~= v@.take(i + 1));
        i = i + 1;
    }
    assert(v@.take(v@.len() as int) =~= v@);
    s
}


/// The first index at or after `i` where `pat` occurs in `s`.
pub open spec fn find_from(s: Seq<char>, pat: Seq<char>, i: int) -> Option<int>
    decreases s.len() + 1 - i,
{
    if i < 0 || i + pat.len() > s.len() {
        None
    } else if s.subrange(i, i + pat.len()) == pat {
        Some(i)
    } else {
        find_from(s, pat, i + 1)
    }
}

/// The first index where `pat` occurs in `s`.
pub open spec fn find(s: Seq<char>, pat: Seq<char>) -> Option<int> {
    find_from(s, pat, 0)
}

/// Whether `pat` occurs anywhere in `s`.
pub open spec fn occurs_in(s: Seq<char>, pat: Seq<char>) -> bool {
    exists|i: int| 0 <= i && i + pat.len() <= s.len() && #[trigger] s.subrange(i, i + pat.len()) == pat
}

/// How many times `c` occurs in `s`.
pub open spec fn count_char(s: Seq<char>, c: char) -> nat
    decreases s.len(),
{
    if s.len() == 0 {
        0
    } else {
        count_char(s.drop_last(), c) + if s.last() == c { 1nat } else { 0nat }
    }
}

/// The character sequences of a list of character vectors.
pub open spec fn char_views(ls: Seq<Vec<char>>) -> Seq<Seq<char>> {
    ls.map_values(|l: Vec<char>| l@)
}

/// Whether two character vectors hold the same characters.
pub fn chars_equal(a: &Vec<char>, b: &Vec<char>) -> (r: bool)
    ensures
        r == (a@ == b@),
{
    if a.len() != b.len() {
        return false;
    }
    let mut i: usize = 0;
    while i < a.len()
        invariant
            a@.len() == b@.len(),
            i <= a@.len(),
            forall|j: int| 0 <= j < i ==> a@[j] == b@[j],
        decreases a@.len() - i,
    {
        if a[i] != b[i] {
            return false;
        }
        i = i + 1;
    }
    assert(a@ =~= b@);
    true
}

/// Whether `pat` occurs in `s` starting at index `i`.
pub open spec fn occurs_at(s: Seq<char>, pat: Seq<char>, i: int) -> bool {
    0 <= i && i + pat.len() <= s.len() && s.subrange(i, i + pat.len()) == pat
}

/// `find_from` is the first occurrence at or after `start`.
pub proof fn lemma_find_from_some(s: Seq<char>, pat: Seq<char>, start: int)
    requires
        find_from(s, pat, start) is Some,
    ensures
        start <= find_from(s, pat, start)->0,
        occurs_at(s, pat, find_from(s, pat, start)->0),
        forall|j: int| start <= j < find_from(s, pat, start)->0 ==> !occurs_at(s, pat, j),
    decreases s.len() + 1 - start,
{
    if !(start < 0 || start + pat.len() > s.len()) && s.subrange(start, start + pat.len()) != pat {
        lemma_find_from_some(s, pat, start + 1);
    }
}

/// No occurrence at or after `start` means `find_from` finds none.
pub proof fn lemma_find_from_none(s: Seq<char>, pat: Seq<char>, start: int)
    requires
        0 <= start,
        forall|j: int| start <= j ==> !occurs_at(s, pat, j),
    ensures
        find_from(s, pat, start) is None,
    decreases s.len() + 1 - start,
{
    if start + pat.len() <= s.len() {
        assert(!occurs_at(s, pat, start));
        lemma_find_from_none(s, pat, start + 1);
    }
}

/// An occurrence at `i` with none in `[start, i)` is what `find_from` finds.
pub proof fn lemma_find_from_at(s: Seq<char>, pat: Seq<char>, start: int, i: int)
    requires
        0 <= start <= i,
        occurs_at(s, pat, i),
        forall|j: int| start <= j < i ==> !occurs_at(s, pat, j),
    ensures
        find_from(s, pat, start) == Some(i),
    decreases i - start,
{
    if start < i {
        assert(!occurs_at(s, pat, start));
        lemma_find_from_at(s, pat, start + 1, i);
    }
}

/// Searching from `start + k` in `s` is searching from `k` in `s.skip(start)`.
pub proof fn lemma_find_from_skip(s: Seq<char>, pat: Seq<char>, start: int, k: int)
    requires
        0 <= start <= s.len(),
        0 <= k,
    ensures
        find_from(s, pat, start + k) == match find_from(s.skip(start), pat, k) {
            Some(i) => Some(i + start),
            None => None,
        },
    decreases s.len() + 1 - (start + k),
{
    let t = s.skip(start);
    if start + k + pat.len() <= s.len() {
        assert(t.subrange(k, k + pat.len()) =~= s.subrange(start + k, start + k + pat.len()));
        lemma_find_from_skip(s, pat, start, k + 1);
    }
}

/// A character that does not occur in `s` is not found in it.
pub proof fn lemma_find_char_absent(s: Seq<char>, c: char)
    requires
        !s.contains(c),
    ensures
        find(s, seq![c]) is None,
{
    assert forall|j: int| 0 <= j implies !occurs_at(s, seq![c], j) by {
        if occurs_at(s, seq![c], j) {
            assert(s.subrange(j, j + 1)[0] == s[j]);
        }
    }
    lemma_find_from_none(s, seq![c], 0);
}

/// Counting a character over a concatenation.
pub proof fn lemma_count_concat(a: Seq<char>, b: Seq<char>, c: char)
    ensures
        count_char(a + b, c) == count_char(a, c) + count_char(b, c),
    decreases b.len(),
{
    if b.len() > 0 {
        assert((a + b).drop_last() =~= a + b.drop_last());
        lemma_count_concat(a, b.drop_last(), c);
    } else {
        assert(a + b =~= a);
    }
}

/// A character absent from `s` is counted zero times.
pub proof fn lemma_count_absent(s: Seq<char>, c: char)
    requires
        !s.contains(c),
    ensures
        count_char(s, c) == 0,
    decreases s.len(),
{
    if s.len() > 0 {
        assert(s.drop_last().len() < s.len());
        assert forall|k: int| 0 <= k < s.drop_last().len() implies s.drop_last()[k] != c by {
            assert(s[k] != c);
        }
        assert(!s.drop_last().contains(c));
        assert(s[s.len() - 1] != c);
        lemma_count_absent(s.drop_last(), c);
    }
}

/// Whether `s` holds `pat` at index `i`.
pub fn matches_at(s: &Vec<char>, pat: &Vec<char>, i: usize) -> (b: bool)
    requires
        i + pat@.len() <= s@.len(),
    ensures
        b == (s@.subrange(i as int, i + pat@.len()) == pat@),
{
    let n = s.len();
    let mut k: usize = 0;
    while k < pat.len()
        invariant
            n == s@.len(),
            i + pat@.len() <= s@.len(),
            k <= pat@.len(),
            forall|j: int| 0 <= j < k ==> s@[i + j] == pat@[j],
        decreases pat@.len() - k,
    {
        if s[i + k] != pat[k] {
            assert(s@.subrange(i as int, i + pat@.len())[k as int] != pat@[k as int]);
            return false;
        }
        k = k + 1;
    }
    assert(s@.subrange(i as int, i + pat@.len()) =~= pat@);
    true
}

/// The first index at or after `start` where `pat` occurs in `s`.
pub fn find_chars_from(s: &Vec<char>, pat: &Vec<char>, start: usize) -> (r: Option<usize>)
    ensures
        r matches Some(i) ==> find_from(s@, pat@, start as int) == Some(i as int),
        r matches Some(i) ==> occurs_at(s@, pat@, i as int),
        r is None ==> find_from(s@, pat@, start as int) is None,
{
    if start > s.len() || pat.len() > s.len() - start {
        return None;
    }
    if pat.len() == 0 {
        assert(s@.subrange(start as int, start as int) =~= pat@);
        return Some(start);
    }
    let mut i = start;
    while pat.len() <= s.len() - i
        invariant
            start <= i <= s@.len(),
            pat@.len() > 0,
            find_from(s@, pat@, start as int) == find_from(s@, pat@, i as int),
        decreases s@.len() - i,
    {
        if matches_at(s, pat, i) {
            return Some(i);
        }
        i = i + 1;
    }
    None
}

/// The first index where `pat` occurs in `s`.
pub fn find_chars(s: &Vec<char>, pat: &Vec<char>) -> (r: Option<usize>)
    ensures
        r matches Some(i) ==> find(s@, pat@) == Some(i as int),
        r matches Some(i) ==> occurs_at(s@, pat@, i as int),
        r is None ==> find(s@, pat@) is None,
{
    find_chars_from(s, pat, 0)
}

/// The first index of `c` in `s`.
pub fn find_char(s: &Vec<char>, c: char) -> (r: Option<usize>)
    ensures
        r matches Some(i) ==> find(s@, seq![c]) == Some(i as int),
        r matches Some(i) ==> i < s@.len() && s@[i as int] == c,
        r is None ==> find(s@, seq![c]) is None,
{
    let pat = vec![c];
    assert(pat@ =~= seq![c]);
    let r = find_chars(s, &pat);
    if let Some(i) = r {
        assert(s@.subrange(i as int, i + 1)[0] == s@[i as int]);
    }
    r
}

/// How many times `c` occurs in `s`.
pub fn count_chars(s: &Vec<char>, c: char) -> (n: usize)
    ensures
        n == count_char(s@, c),
{
    let mut n: usize = 0;
    let mut i: usize = 0;
    while i < s.len()
        invariant
            i <= s@.len(),
            n <= i,
            n == count_char(s@.take(i as int), c),
        decreases s@.len() - i,
    {
        assert(s@.take(i + 1).drop_last() =~= s@.take(i as int));
        if s[i] == c {
            n = n + 1;
        }
        i = i + 1;
    }
    assert(s@.take(s@.len() as int) =~= s@);
    n
}

/// The characters of `s` from `from` (inclusive) to `to` (exclusive).
pub fn sub_chars(s: &Vec<char>, from: usize, to: usize) -> (r: Vec<char>)
    requires
        from <= to <= s@.len(),
    ensures
        r@ == s@.subrange(from as int, to as int),
{
    let mut r: Vec<char> = Vec::new();
    let mut i = from;
    while i < to
        invariant
            from <= i <= to <= s@.len(),
            r@ == s@.subrange(from as int, i as int),
        decreases to - i,
    {
        r.push(s[i]);
        assert(s@.subrange(from as int, i as int).push(s@[i as int]) =~= s@.subrange(from as int, i + 1));
        i = i + 1;
    }
    r
}

/// `a` followed by `b`.
pub fn concat_chars(a: &Vec<char>, b: &Vec<char>) -> (r: Vec<char>)
    ensures
        r@ == a@ + b@,
{
    let mut r = a.clone();
    let mut i: usize = 0;
    while i < b.len()
        invariant
            i <= b@.len(),
            r@ == a@ + b@.take(i as int),
        decreases b@.len() - i,
    {
        r.push(b[i]);
        assert(a@ + b@.take(i as int).push(b@[i as int]) =~= a@ + b@.take(i + 1));
        i = i + 1;
    }
    assert(b@.take(b@.len() as int) =~= b@);
    r
}

/// Concatenates the items, putting `sep` between an item and the text built so
/// far whenever that text is not empty (so empty items add no separator).
pub open spec fn join_skipping_empty(items: Seq<Seq<char>>, sep: char) -> Seq<char>
    decreases items.len(),
{
    if items.len() == 0 {
        seq![]
    } else {
        let acc = join_skipping_empty(items.drop_last(), sep);
        (if acc.len() > 0 {
            acc.push(sep)
        } else {
            acc
        }) + items.last()
    }
}

/// The items with `sep` between each two of them.
pub open spec fn join_with(items: Seq<Seq<char>>, sep: Seq<char>) -> Seq<char>
    decreases items.len(),
{
    if items.len() == 0 {
        seq![]
    } else if items.len() == 1 {
        items[0]
    } else {
        join_with(items.drop_last(), sep) + sep + items.last()
    }
}

pub open spec fn string_seqs(v: Seq<String>) -> Seq<Seq<char>> {
    v.map_values(|s: String| s@)
}

/// The decimal digits of `n`, most significant first.
pub open spec fn decimal(n: nat) -> Seq<char>
    decreases n,
{
    if n < 10 {
        seq![(n + '0' as nat) as char]
    } else {
        decimal(n / 10).push(((n % 10) + '0' as nat) as char)
    }
}

/// The decimal digits of `n`.
pub fn decimal_chars(n: u64) -> (v: Vec<char>)
    ensures
        v@ == decimal(n as nat),
    decreases n,
{
    if n < 10 {
        let d = char_from_digit(n);
        let v = vec![d];
        assert(v@ =~= decimal(n as nat));
        v
    } else {
        let mut v = decimal_chars(n / 10);
        v.push(char_from_digit(n % 10));
        v
    }
}

fn char_from_digit(d: u64) -> (c: char)
    requires
        d < 10,
    ensures
        c == (d + '0' as nat) as char,
{
    if d == 0 { '0' }
    else if d == 1 { '1' }
    else if d == 2 { '2' }
    else if d == 3 { '3' }
    else if d == 4 { '4' }
    else if d == 5 { '5' }
    else if d == 6 { '6' }
    else if d == 7 { '7' }
    else if d == 8 { '8' }
    else { '9' }
}

/// Joins the strings as `join_skipping_empty` describes.
pub fn join_strings_skipping_empty(items: &Vec<String>, sep: char) -> (r: Vec<char>)
    ensures
        r@ == join_skipping_empty(string_seqs(items@), sep),
{
    let mut acc: Vec<char> = Vec::new();
    let mut i: usize = 0;
    while i < items.len()
        invariant
            i <= items@.len(),
            acc@ == join_skipping_empty(string_seqs(items@).take(i as int), sep),
        decreases items@.len() - i,
    {
        let ghost before = acc@;
        if acc.len() > 0 {
            acc.push(sep);
        }
        let item = chars_of(items[i].as_str());
        acc = concat_chars(&acc, &item);
        assert(string_seqs(items@).take(i + 1).drop_last() =~= string_seqs(items@).take(i as int));
        i = i + 1;
    }
    assert(string_seqs(items@).take(items@.len() as int) =~= string_seqs(items@));
    acc
}

/// Joins the strings with `sep` between each two of them.
pub fn join_strings_with(items: &Vec<String>, sep: &Vec<char>) -> (r: Vec<char>)
    ensures
        r@ == join_with(string_seqs(items@), sep@),
{
    let mut acc: Vec<char> = Vec::new();
    let mut i: usize = 0;
    while i < items.len()
        invariant
            i <= items@.len(),
            acc@ == join_with(string_seqs(items@).take(i as int), sep@),
        decreases items@.len() - i,
    {
        if i > 0 {
            acc = concat_chars(&acc, sep);
        }
        let item = chars_of(items[i].as_str());
        acc = concat_chars(&acc, &item);
        assert(string_seqs(items@).take(i + 1).drop_last() =~= string_seqs(items@).take(i as int));
        proof {
            if i == 0 {
                assert(acc@ =~= string_seqs(items@).take(1)[0]);
            }
        }
        i = i + 1;
    }
    assert(string_seqs(items@).take(items@.len() as int) =~= string_seqs(items@));
    acc
}


/// The pieces of `s` between the occurrences of `sep`, in order: one more piece
/// than `s` holds separators (so the empty text is one empty piece).
pub open spec fn split_at_char(s: Seq<char>, sep: char) -> Seq<Seq<char>>
    decreases s.len(),
{
    if s.len() == 0 {
        seq![seq![]]
    } else {
        let rest = split_at_char(s.drop_last(), sep);
        if s.last() == sep {
            rest.push(seq![])
        } else {
            rest.update(rest.len() - 1, rest.last().push(s.last()))
        }
    }
}

proof fn lemma_split_nonempty(s: Seq<char>, sep: char)
    ensures
        split_at_char(s, sep).len() >= 1,
    decreases s.len(),
{
    if s.len() > 0 {
        lemma_split_nonempty(s.drop_last(), sep);
    }
}

/// Appending text without a separator extends the last piece.
proof fn lemma_split_append_piece(a: Seq<char>, b: Seq<char>, sep: char)
    requires
        !b.contains(sep),
    ensures
        split_at_char(a + b, sep) == split_at_char(a, sep).update(
            split_at_char(a, sep).len() - 1,
            split_at_char(a, sep).last() + b,
        ),
    decreases b.len(),
{
    lemma_split_nonempty(a, sep);
    if b.len() == 0 {
        assert(a + b =~= a);
        assert(split_at_char(a, sep).last() + b =~= split_at_char(a, sep).last());
        assert(split_at_char(a, sep).update(split_at_char(a, sep).len() - 1, split_at_char(a, sep).last())
            =~= split_at_char(a, sep));
    } else {
        let b0 = b.drop_last();
        assert(!b0.contains(sep)) by {
            assert forall|k: int| 0 <= k < b0.len() implies b0[k] != sep by {
                assert(b0[k] == b[k]);
            }
        }
        lemma_split_append_piece(a, b0, sep);
        assert((a + b).drop_last() =~= a + b0);
        assert((a + b).last() == b.last());
        assert(b.last() != sep) by {
            assert(b[b.len() - 1] == b.last());
        }
        let r = split_at_char(a, sep);
        assert((r.last() + b0).push(b.last()) =~= r.last() + b);
        assert(split_at_char(a + b, sep) =~= r.update(r.len() - 1, r.last() + b));
    }
}

/// Joining items that are all non-empty and free of the separator, and then
/// splitting the text at the separator, gives the items back, in order: each
/// item occurs in the joined text, between separators, exactly once.
pub proof fn lemma_join_then_split(items: Seq<Seq<char>>, sep: char)
    requires
        items.len() > 0,
        forall|i: int| 0 <= i < items.len() ==> (#[trigger] items[i]).len() > 0 && !items[i].contains(sep),
    ensures
        split_at_char(join_skipping_empty(items, sep), sep) == items,
    decreases items.len(),
{
    let init = items.drop_last();
    let last = items.last();
    assert(items[items.len() - 1] == last);
    if items.len() == 1 {
        assert(join_skipping_empty(init, sep) =~= Seq::<char>::empty());
        assert(join_skipping_empty(items, sep) =~= Seq::<char>::empty() + last);
        lemma_split_append_piece(Seq::<char>::empty(), last, sep);
        assert(split_at_char(Seq::<char>::empty(), sep) =~= seq![Seq::<char>::empty()]);
        assert(seq![Seq::<char>::empty()].update(0, Seq::<char>::empty() + last) =~= items);
    } else {
        assert forall|i: int| 0 <= i < init.len() implies (#[trigger] init[i]).len() > 0 && !init[i].contains(sep) by {
            assert(init[i] == items[i]);
        }
        lemma_join_then_split(init, sep);
        let acc = join_skipping_empty(init, sep);
        assert(init[init.len() - 1] == init.last());
        assert(acc.len() > 0) by {
            lemma_join_ends_with_last(init, sep);
        }
        assert(join_skipping_empty(items, sep) == acc.push(sep) + last);
        lemma_split_append_piece(acc.push(sep), last, sep);
        assert(acc.push(sep).drop_last() =~= acc);
        assert(split_at_char(acc.push(sep), sep) == init.push(seq![]));
        assert(init.push(seq![]).update(init.len() as int, Seq::<char>::empty() + last) =~= items);
    }
}

proof fn lemma_join_ends_with_last(items: Seq<Seq<char>>, sep: char)
    requires
        items.len() > 0,
    ensures
        join_skipping_empty(items, sep).len() >= items.last().len(),
{
}

} // verus!
