//! Characters, whitespace and words of a protocol line.
use vstd::prelude::*;
use vstd::utf8::{decode_utf8, valid_utf8};

use bytes::BytesMut;

use crate::protocol::buffer::{buffer_bytes, buffer_slice};

verus! {

/// `char::is_whitespace`: the Unicode `White_Space` property.
pub open spec fn is_ws(c: char) -> bool {
    let u = c as u32;
    ||| 9 <= u <= 13
    ||| u == 32
    ||| u == 0x85
    ||| u == 0xA0
    ||| u == 0x1680
    ||| 0x2000 <= u <= 0x200A
    ||| u == 0x2028
    ||| u == 0x2029
    ||| u == 0x202F
    ||| u == 0x205F
    ||| u == 0x3000
}

/// Whether `c` is a whitespace character (Unicode `White_Space`).
pub fn is_whitespace(c: char) -> (res: bool)
    ensures
        res == is_ws(c),
{
    let u = c as u32;
    (9 <= u && u <= 13) || u == 32 || u == 0x85 || u == 0xA0 || u == 0x1680 || (0x2000 <= u
        && u <= 0x200A) || u == 0x2028 || u == 0x2029 || u == 0x202F || u == 0x205F || u
        == 0x3000
}

/// Length of the run of non-whitespace characters that starts `s`.
pub open spec fn word_len(s: Seq<char>) -> nat
    decreases s.len(),
{
    if s.len() == 0 || is_ws(s[0]) {
        0
    } else {
        1 + word_len(s.drop_first())
    }
}

pub proof fn lemma_word_len_bound(s: Seq<char>)
    ensures
        word_len(s) <= s.len(),
        s.len() > 0 && !is_ws(s[0]) ==> word_len(s) >= 1,
    decreases s.len(),
{
    if s.len() > 0 && !is_ws(s[0]) {
        lemma_word_len_bound(s.drop_first());
    }
}

/// The words of `s`, as `str::split_whitespace` yields them: the maximal
/// runs of non-whitespace characters, in order.
pub open spec fn words(s: Seq<char>) -> Seq<Seq<char>>
    decreases s.len(),
{
    if s.len() == 0 {
        seq![]
    } else if is_ws(s[0]) {
        words(s.drop_first())
    } else {
        proof {
            lemma_word_len_bound(s);
        }
        seq![s.take(word_len(s) as int)] + words(s.skip(word_len(s) as int))
    }
}

proof fn lemma_word_len_exact(t: Seq<char>, m: nat)
    requires
        m <= t.len(),
        forall|k: int| 0 <= k < m ==> !is_ws(#[trigger] t[k]),
        m == t.len() || is_ws(t[m as int]),
    ensures
        word_len(t) == m,
    decreases m,
{
    if m > 0 {
        let u = t.drop_first();
        assert forall|k: int| 0 <= k < m - 1 implies !is_ws(#[trigger] u[k]) by {
            assert(u[k] == t[k + 1]);
        }
        lemma_word_len_exact(u, (m - 1) as nat);
    }
}

proof fn lemma_word_len_prefix(s: Seq<char>)
    ensures
        forall|j: int| 0 <= j < word_len(s) ==> !is_ws(#[trigger] s[j]),
    decreases s.len(),
{
    lemma_word_len_bound(s);
    if s.len() > 0 && !is_ws(s[0]) {
        lemma_word_len_prefix(s.drop_first());
        assert forall|j: int| 0 <= j < word_len(s) implies !is_ws(#[trigger] s[j]) by {
            if j > 0 {
                assert(s[j] == s.drop_first()[j - 1]);
            }
        }
    }
}

/// Every word is non-empty and holds no whitespace.
pub proof fn law_words_are_nonblank(s: Seq<char>)
    ensures
        forall|i: int|
            0 <= i < words(s).len() ==> #[trigger] words(s)[i].len() > 0 && forall|j: int|
                0 <= j < words(s)[i].len() ==> !is_ws(#[trigger] words(s)[i][j]),
    decreases s.len(),
{
    if s.len() == 0 {
    } else if is_ws(s[0]) {
        law_words_are_nonblank(s.drop_first());
        assert(words(s) == words(s.drop_first()));
    } else {
        lemma_word_len_bound(s);
        lemma_word_len_prefix(s);
        let n = word_len(s) as int;
        law_words_are_nonblank(s.skip(n));
        let w = s.take(n);
        assert(words(s) == seq![w] + words(s.skip(n)));
        assert(words(s)[0] == w);
        assert forall|j: int| 0 <= j < w.len() implies !is_ws(#[trigger] w[j]) by {
            assert(w[j] == s[j]);
        }
        assert forall|i: int| 0 <= i < words(s).len() implies #[trigger] words(s)[i].len() > 0
            && forall|j: int| 0 <= j < words(s)[i].len() ==> !is_ws(#[trigger] words(s)[i][j]) by {
            if i > 0 {
                assert(words(s)[i] == words(s.skip(n))[i - 1]);
            }
        }
    }
}

/// Appending a space and a non-blank word `w` to a line appends `w` to its
/// words.
pub proof fn law_words_append_word(a: Seq<char>, w: Seq<char>)
    requires
        w.len() > 0,
        forall|j: int| 0 <= j < w.len() ==> !is_ws(#[trigger] w[j]),
    ensures
        words(a + seq![' '] + w) == words(a).push(w),
    decreases a.len(),
{
    let full = a + seq![' '] + w;
    assert(is_ws(' '));
    if a.len() == 0 {
        assert(full[0] == ' ');
        assert(full.drop_first() =~= w);
        lemma_word_len_exact(w, w.len());
        assert(w.take(w.len() as int) =~= w);
        assert(w.skip(w.len() as int) =~= Seq::<char>::empty());
        assert(words(Seq::<char>::empty()) =~= Seq::<Seq<char>>::empty());
        assert(words(w) =~= seq![w]);
        assert(words(a) =~= Seq::<Seq<char>>::empty());
        assert(words(a).push(w) =~= seq![w]);
    } else if is_ws(a[0]) {
        assert(full[0] == a[0]);
        assert(full.drop_first() =~= a.drop_first() + seq![' '] + w);
        law_words_append_word(a.drop_first(), w);
    } else {
        lemma_word_len_bound(a);
        lemma_word_len_prefix(a);
        let m = word_len(a);
        assert forall|k: int| 0 <= k < m implies !is_ws(#[trigger] full[k]) by {
            assert(full[k] == a[k]);
        }
        if m < a.len() {
            assert(full[m as int] == a[m as int]);
            lemma_word_len_stops(a);
        } else {
            assert(full[m as int] == ' ');
        }
        lemma_word_len_exact(full, m);
        assert(full.take(m as int) =~= a.take(m as int));
        assert(full.skip(m as int) =~= a.skip(m as int) + seq![' '] + w);
        law_words_append_word(a.skip(m as int), w);
        assert(words(a) == seq![a.take(m as int)] + words(a.skip(m as int)));
        assert(words(full) == seq![full.take(m as int)] + words(full.skip(m as int)));
        assert(seq![a.take(m as int)] + words(a.skip(m as int)).push(w) =~= (seq![a.take(m as int)]
            + words(a.skip(m as int))).push(w));
    }
}

proof fn lemma_word_len_stops(s: Seq<char>)
    ensures
        word_len(s) == s.len() || is_ws(s[word_len(s) as int]),
    decreases s.len(),
{
    if s.len() > 0 && !is_ws(s[0]) {
        lemma_word_len_stops(s.drop_first());
        lemma_word_len_bound(s.drop_first());
        if word_len(s.drop_first()) < s.drop_first().len() {
            assert(s[word_len(s) as int] == s.drop_first()[word_len(s.drop_first()) as int]);
        }
    }
}

/// The characters of `s`, in order.
pub fn chars_of(s: &str) -> (res: Vec<char>)
    ensures
        res@ == s@,
{
    let mut out: Vec<char> = Vec::new();
    for c in it: s.chars()
        invariant
            out@ == it.seq().take(it.index() as int),
            it.seq() == s@,
    {
        out.push(c);
        assert(out@ =~= it.seq().take(it.index() + 1));
    }
    assert(out@ =~= s@);
    out
}

/// Splits `s` into its words, as `str::split_whitespace` does.
pub fn split_whitespace(s: &Vec<char>) -> (res: Vec<Vec<char>>)
    ensures
        res.len() == words(s@).len(),
        forall|k: int| 0 <= k < res.len() ==> #[trigger] res[k]@ == words(s@)[k],
{
    let n = s.len();
    let mut out: Vec<Vec<char>> = Vec::new();
    let ghost mut done: Seq<Seq<char>> = seq![];
    let mut i: usize = 0;
    assert(s@.skip(0) =~= s@);
    while i < n
        invariant
            n == s.len(),
            i <= n,
            out.len() == done.len(),
            forall|k: int| 0 <= k < out.len() ==> #[trigger] out[k]@ == done[k],
            words(s@) == done + words(s@.skip(i as int)),
        decreases n - i,
    {
        let c = s[i];
        if is_whitespace(c) {
            assert(s@.skip(i as int).drop_first() =~= s@.skip(i + 1));
            i = i + 1;
        } else {
            let mut j: usize = i;
            let mut w: Vec<char> = Vec::new();
            while j < n && !is_whitespace(s[j])
                invariant
                    n == s.len(),
                    i <= j <= n,
                    w@ =~= s@.subrange(i as int, j as int),
                    forall|k: int| i <= k < j ==> !is_ws(#[trigger] s@[k]),
                decreases n - j,
            {
                w.push(s[j]);
                j = j + 1;
            }
            proof {
                let t = s@.skip(i as int);
                assert forall|k: int| 0 <= k < j - i implies !is_ws(#[trigger] t[k]) by {
                    assert(t[k] == s@[i + k]);
                }
                lemma_word_len_exact(t, (j - i) as nat);
                assert(t.take((j - i) as int) =~= s@.subrange(i as int, j as int));
                assert(t.skip((j - i) as int) =~= s@.skip(j as int));
                assert(done.push(w@) + words(s@.skip(j as int)) =~= done + words(t));
            }
            out.push(w);
            proof {
                done = done.push(s@.subrange(i as int, j as int));
            }
            i = j;
        }
    }
    assert(s@.skip(n as int) =~= Seq::<char>::empty());
    assert(done + words(Seq::<char>::empty()) =~= done);
    out
}

/// Whether the word `w` is exactly the characters `lit`.
pub fn word_is(w: &Vec<char>, lit: &[char]) -> (res: bool)
    ensures
        res == (w@ == lit@),
{
    if w.len() != lit.len() {
        return false;
    }
    let mut i: usize = 0;
    while i < w.len()
        invariant
            w.len() == lit@.len(),
            i <= w.len(),
            forall|k: int| 0 <= k < i ==> w@[k] == lit@[k],
        decreases w.len() - i,
    {
        if w[i] != lit[i] {
            return false;
        }
        i = i + 1;
    }
    assert(w@ =~= lit@);
    true
}

/// `String::from_iter` over the characters of `chars`: the string made of
/// exactly those characters, in order.
#[verifier::external_body]
pub(crate) fn string_from_chars(chars: &[char]) -> (res: String)
    ensures
        res@ == chars@,
{
    String::from_iter(chars)
}

/// Whether `s` holds the line ending `\r\n` at position `i`.
pub open spec fn crlf_at(s: Seq<u8>, i: int) -> bool {
    0 <= i && i + 1 < s.len() && s[i] == 13 && s[i + 1int] == 10
}

/// The first position at or after `i` where `s` holds `\r\n`.
pub open spec fn crlf_from(s: Seq<u8>, i: nat) -> Option<nat>
    decreases s.len() - i,
{
    if i + 1 >= s.len() {
        None
    } else if s[i as int] == 13 && s[i + 1int] == 10 {
        Some(i)
    } else {
        crlf_from(s, i + 1)
    }
}

pub proof fn lemma_crlf_from(s: Seq<u8>, i: nat)
    ensures
        crlf_from(s, i) matches Some(p) ==> i <= p && crlf_at(s, p as int) && forall|j: int|
            i <= j < p ==> !crlf_at(s, j),
        crlf_from(s, i) is None ==> forall|j: int| i <= j ==> !crlf_at(s, j),
    decreases s.len() - i,
{
    if i + 1 < s.len() && !(s[i as int] == 13 && s[i + 1int] == 10) {
        lemma_crlf_from(s, i + 1);
    }
}

/// A position as a `usize`.
pub open spec fn index_of(p: Option<nat>) -> Option<usize> {
    match p {
        Some(i) => Some(i as usize),
        None => None,
    }
}

/// The position of the first `\r\n` in `s`.
pub fn find_crlf_in(s: &[u8]) -> (res: Option<usize>)
    ensures
        res == index_of(crlf_from(s@, 0)),
{
    let n = s.len();
    let mut i: usize = 0;
    while i < n && i + 1 < n
        invariant
            n == s@.len(),
            i <= n,
            crlf_from(s@, 0) == crlf_from(s@, i as nat),
        decreases n - i,
    {
        if s[i] == 13 && s[i + 1] == 10 {
            return Some(i);
        }
        i = i + 1;
    }
    None
}

/// The position of the first `\r\n` in what the buffer holds.
pub fn find_crlf(buf: &BytesMut) -> (res: Option<usize>)
    ensures
        res == index_of(crlf_from(buffer_bytes(*buf), 0)),
{
    find_crlf_in(buffer_slice(buf))
}

/// `std::str::from_utf8`: the string that `bytes` encode, where they are
/// valid UTF-8, and nothing where they are not.
#[verifier::external_body]
pub(crate) fn utf8_str<'a>(bytes: &'a [u8]) -> (res: Option<&'a str>)
    ensures
        res is Some <==> valid_utf8(bytes@),
        res matches Some(s) ==> s@ == decode_utf8(bytes@),
{
    std::str::from_utf8(bytes).ok()
}

} // verus!
