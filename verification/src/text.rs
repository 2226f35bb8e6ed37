//! Character-level helpers shared by the parsers: text as a sequence of
//! characters, the first occurrence of a character, and the split of a text
//! into the fields between a separator.

use vstd::prelude::*;
use vstd::slice::slice_subrange;

verus! {

/// The characters of `s`, in order.
pub fn chars_of(s: &str) -> (r: Vec<char>)
    ensures
        r@ == s@,
{
    let mut r: Vec<char> = Vec::new();
    for c in it: s.chars()
        invariant
            it.seq() == s@,
            r@ == it.seq().take(it.index()),
    {
        assert(it.seq().take(it.index() + 1) == it.seq().take(it.index()).push(c));
        r.push(c);
    }
    r
}

/// Whether two character slices hold the same text.
pub fn same_text(a: &[char], b: &[char]) -> (r: bool)
    ensures
        r == (a@ == b@),
{
    if a.len() != b.len() {
        return false;
    }
    let mut i: usize = 0;
    while i < a.len()
        invariant
            a.len() == b.len(),
            i <= a.len(),
            a@.take(i as int) == b@.take(i as int),
        decreases a.len() - i,
    {
        if a[i] != b[i] {
            return false;
        }
        i += 1;
        assert(a@.take(i as int) == a@.take(i - 1).push(a@[i - 1]));
        assert(b@.take(i as int) == b@.take(i - 1).push(b@[i - 1]));
    }
    assert(a@ == a@.take(i as int));
    assert(b@ == b@.take(i as int));
    true
}

/// Whether two strings hold the same text.
pub fn same_string(a: &str, b: &str) -> (r: bool)
    ensures
        r == (a@ == b@),
{
    let x = chars_of(a);
    let y = chars_of(b);
    same_text(x.as_slice(), y.as_slice())
}

/// The texts of a list of strings.
pub open spec fn string_texts(items: Seq<String>) -> Seq<Seq<char>> {
    Seq::new(items.len(), |i: int| items[i]@)
}

/// The characters that separate words: the code points with the Unicode
/// property `White_Space`.
pub open spec fn is_whitespace(c: char) -> bool {
    let n = c as u32;
    ||| 0x09 <= n <= 0x0D
    ||| n == 0x20
    ||| n == 0x85
    ||| n == 0xA0
    ||| n == 0x1680
    ||| 0x2000 <= n <= 0x200A
    ||| n == 0x2028
    ||| n == 0x2029
    ||| n == 0x202F
    ||| n == 0x205F
    ||| n == 0x3000
}

/// Whether `c` separates words.
pub fn whitespace(c: char) -> (r: bool)
    ensures
        r == is_whitespace(c),
{
    let n: u32 = c as u32;
    (0x09 <= n && n <= 0x0D) || n == 0x20 || n == 0x85 || n == 0xA0 || n == 0x1680 || (0x2000 <= n
        && n <= 0x200A) || n == 0x2028 || n == 0x2029 || n == 0x202F || n == 0x205F || n == 0x3000
}

/// The index of the first `c` in `s`, or the length of `s` where it holds none.
pub open spec fn first_index(s: Seq<char>, c: char) -> int
    decreases s.len(),
{
    if s.len() == 0 || s[0] == c {
        0
    } else {
        1 + first_index(s.drop_first(), c)
    }
}

/// `first_index` is the only position with no `c` before it that holds `c` or
/// ends the text.
pub proof fn lemma_first_index(s: Seq<char>, c: char, k: int)
    requires
        0 <= k <= s.len(),
        forall|j: int| 0 <= j < k ==> s[j] != c,
        k < s.len() ==> s[k] == c,
    ensures
        first_index(s, c) == k,
    decreases s.len(),
{
    if s.len() == 0 || s[0] == c {
    } else {
        let t = s.drop_first();
        assert forall|j: int| 0 <= j < k - 1 implies t[j] != c by {
            assert(t[j] == s[j + 1]);
        }
        lemma_first_index(t, c, k - 1);
    }
}

/// What `first_index` finds: a position within the text, nothing equal to `c`
/// before it, and `c` at it unless it is the end.
pub proof fn lemma_first_index_found(s: Seq<char>, c: char)
    ensures
        0 <= first_index(s, c) <= s.len(),
        forall|j: int| 0 <= j < first_index(s, c) ==> s[j] != c,
        first_index(s, c) < s.len() ==> s[first_index(s, c)] == c,
    decreases s.len(),
{
    if s.len() == 0 || s[0] == c {
    } else {
        let t = s.drop_first();
        lemma_first_index_found(t, c);
        assert forall|j: int| 0 <= j < first_index(s, c) implies s[j] != c by {
            if j > 0 {
                assert(s[j] == t[j - 1]);
            }
        }
    }
}

/// The position of the first `c` at or after `from`, or the length of `s`.
pub fn find_char(s: &[char], from: usize, c: char) -> (r: usize)
    requires
        from <= s.len(),
    ensures
        from <= r <= s.len(),
        r - from == first_index(s@.skip(from as int), c),
{
    let mut i: usize = from;
    while i < s.len() && s[i] != c
        invariant
            from <= i <= s.len(),
            forall|j: int| from <= j < i ==> s@[j] != c,
        decreases s.len() - i,
    {
        i += 1;
    }
    proof {
        lemma_first_index(s@.skip(from as int), c, i - from);
    }
    i
}

/// The fields of `s` between occurrences of `sep`. A text without `sep` is one
/// field; two neighbouring separators enclose an empty field.
pub open spec fn fields(s: Seq<char>, sep: char) -> Seq<Seq<char>>
    decreases s.len(),
{
    let k = first_index(s, sep);
    if 0 <= k < s.len() {
        seq![s.take(k)] + fields(s.skip(k + 1), sep)
    } else {
        seq![s]
    }
}

/// The texts that a list of slices holds.
pub open spec fn texts(parts: Seq<&[char]>) -> Seq<Seq<char>> {
    Seq::new(parts.len(), |i: int| parts[i]@)
}

/// Splits `s` into the fields between occurrences of `sep`.
pub fn split<'a>(s: &'a [char], sep: char) -> (r: Vec<&'a [char]>)
    ensures
        texts(r@) == fields(s@, sep),
{
    let mut r: Vec<&'a [char]> = Vec::new();
    let mut start: usize = 0;
    proof {
        assert(s@.skip(0) == s@);
        assert(texts(r@) + fields(s@, sep) == fields(s@, sep));
    }
    loop
        invariant
            start <= s.len(),
            fields(s@, sep) == texts(r@) + fields(s@.skip(start as int), sep),
        decreases s.len() - start,
    {
        let end = find_char(s, start, sep);
        let ghost rest = s@.skip(start as int);
        let ghost before = texts(r@);
        r.push(slice_subrange(s, start, end));
        proof {
            assert(rest.take(end - start) == s@.subrange(start as int, end as int));
            assert(texts(r@) == before.push(s@.subrange(start as int, end as int)));
        }
        if end >= s.len() {
            proof {
                assert(rest.take(end - start) == rest);
                assert(fields(rest, sep) == seq![rest]);
                assert(before + seq![rest] == before.push(rest));
            }
            return r;
        }
        proof {
            assert(rest.skip(end - start + 1) == s@.skip(end + 1));
            assert(fields(rest, sep) == seq![rest.take(end - start)] + fields(
                s@.skip(end + 1),
                sep,
            ));
            assert(before + (seq![rest.take(end - start)] + fields(s@.skip(end + 1), sep))
                == before.push(rest.take(end - start)) + fields(s@.skip(end + 1), sep));
        }
        start = end + 1;
    }
}

/// What holds of the separator and of every character of every field holds
/// of every character of the text.
pub proof fn lemma_fields_chars(s: Seq<char>, sep: char, p: spec_fn(char) -> bool)
    requires
        p(sep),
        forall|j: int, k: int|
            0 <= j < fields(s, sep).len() && 0 <= k < fields(s, sep)[j].len() ==> p(
                #[trigger] fields(s, sep)[j][k],
            ),
    ensures
        forall|i: int| 0 <= i < s.len() ==> p(#[trigger] s[i]),
    decreases s.len(),
{
    let k = first_index(s, sep);
    lemma_first_index_found(s, sep);
    if 0 <= k < s.len() {
        let rest = s.skip(k + 1);
        let all = fields(s, sep);
        assert(all == seq![s.take(k)] + fields(rest, sep));
        assert forall|j: int, m: int|
            0 <= j < fields(rest, sep).len() && 0 <= m < fields(rest, sep)[j].len() implies p(
            #[trigger] fields(rest, sep)[j][m],
        ) by {
            assert(all[j + 1] == fields(rest, sep)[j]);
            assert(p(all[j + 1][m]));
        }
        lemma_fields_chars(rest, sep, p);
        assert forall|i: int| 0 <= i < s.len() implies p(#[trigger] s[i]) by {
            if i < k {
                assert(all[0] == s.take(k));
                assert(all[0][i] == s[i]);
                assert(p(all[0][i]));
            } else if i == k {
            } else {
                assert(rest[i - k - 1] == s[i]);
            }
        }
    } else {
        assert(fields(s, sep) == seq![s]);
        assert forall|i: int| 0 <= i < s.len() implies p(#[trigger] s[i]) by {
            assert(fields(s, sep)[0][i] == s[i]);
        }
    }
}

} // verus!
