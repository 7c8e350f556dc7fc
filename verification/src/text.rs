use vstd::prelude::*;

verus! {

/// The characters of `s`, in order.
pub fn chars_of(s: &str) -> (v: Vec<char>)
    ensures
        v@ == s@,
{
    let mut v: Vec<char> = Vec::new();
    for c in it: s.chars()
        invariant
            v@ == it.seq().take(it.index() as int),
    {
        v.push(c);
    }
    v
}

/// Text equality of two string slices, as `<str as PartialEq>::eq` computes it:
/// equal exactly when the characters are equal.
#[verifier::external_body]
pub(crate) fn str_eq(a: &str, b: &str) -> (eq: bool)
    ensures
        eq == (a@ == b@),
{
    a == b
}

/// The Unicode `White_Space` property, which `char::is_whitespace` tests.
pub open spec fn unicode_ws(c: char) -> bool {
    let u = c as u32;
    ||| 0x09 <= u <= 0x0D
    ||| u == 0x20
    ||| u == 0x85
    ||| u == 0xA0
    ||| u == 0x1680
    ||| 0x2000 <= u <= 0x200A
    ||| u == 0x2028
    ||| u == 0x2029
    ||| u == 0x202F
    ||| u == 0x205F
    ||| u == 0x3000
}

/// `char::is_whitespace`: the documentation states it tests the Unicode
/// `White_Space` property, whose code points `unicode_ws` lists.
#[verifier::external_body]
fn is_whitespace(c: char) -> (ws: bool)
    ensures
        ws == unicode_ws(c),
{
    c.is_whitespace()
}

/// The words of `s`: its maximal runs of non-whitespace characters, in order,
/// as `str::split_whitespace` yields them.
pub open spec fn words(s: Seq<char>) -> Seq<Seq<char>>
    decreases s.len(),
{
    if s.len() == 0 {
        Seq::empty()
    } else {
        let prev = words(s.drop_last());
        let c = s.last();
        if unicode_ws(c) {
            prev
        } else if s.len() >= 2 && !unicode_ws(s[s.len() - 2]) {
            prev.update(prev.len() - 1, prev.last().push(c))
        } else {
            prev.push(seq![c])
        }
    }
}

/// `ws` joined with single spaces between them.
pub open spec fn join_words(ws: Seq<Seq<char>>) -> Seq<char>
    decreases ws.len(),
{
    if ws.len() == 0 {
        Seq::empty()
    } else if ws.len() == 1 {
        ws[0]
    } else {
        join_words(ws.drop_last()) + seq![' '] + ws.last()
    }
}

/// A text without a word has no word after its last character; a text whose
/// last character is not whitespace ends inside a word.
proof fn lemma_words_basics(s: Seq<char>)
    ensures
        words(s).len() <= s.len(),
        s.len() > 0 && !unicode_ws(s.last()) ==> words(s).len() > 0,
    decreases s.len(),
{
    if s.len() > 0 {
        lemma_words_basics(s.drop_last());
        let t = s.drop_last();
        if s.len() >= 2 && !unicode_ws(s[s.len() - 2]) {
            assert(t.last() == s[s.len() - 2]);
        }
    }
}

/// Whether every character of `s` is whitespace (true of the empty text).
pub open spec fn all_ws(s: Seq<char>) -> bool {
    forall|i: int| 0 <= i < s.len() ==> unicode_ws(s[i])
}

/// Whether `text` is empty or only whitespace, that is, whether trimming it
/// leaves nothing.
pub fn is_blank(text: &str) -> (blank: bool)
    ensures
        blank == all_ws(text@),
{
    let cs = chars_of(text);
    let mut i: usize = 0;
    while i < cs.len()
        invariant
            cs@ == text@,
            forall|j: int| 0 <= j < i ==> unicode_ws(text@[j]),
        decreases cs@.len() - i,
    {
        if !is_whitespace(cs[i]) {
            return false;
        }
        i += 1;
    }
    true
}

/// The number of characters in `text`.
pub fn char_count(text: &str) -> (n: usize)
    ensures
        n == text@.len(),
{
    let cs = chars_of(text);
    cs.len()
}

/// The number of words in `text`.
pub fn word_count(text: &str) -> (n: usize)
    ensures
        n == words(text@).len(),
{
    let cs = chars_of(text);
    let mut count: usize = 0;
    let mut in_word = false;
    let mut i: usize = 0;
    assert(text@.take(0) =~= Seq::<char>::empty());
    while i < cs.len()
        invariant
            cs@ == text@,
            i <= cs@.len(),
            count == words(text@.take(i as int)).len(),
            in_word == (i > 0 && !unicode_ws(text@[i - 1])),
        decreases cs@.len() - i,
    {
        let ghost t = text@.take(i + 1);
        assert(t.drop_last() =~= text@.take(i as int));
        proof {
            lemma_words_basics(t.drop_last());
            lemma_words_basics(t);
        }
        if is_whitespace(cs[i]) {
            in_word = false;
        } else {
            if !in_word {
                count += 1;
            }
            in_word = true;
        }
        i += 1;
    }
    assert(text@.take(cs@.len() as int) =~= text@);
    count
}

/// `Iterator::collect` of characters into a `String`: the text is the
/// characters in order.
#[verifier::external_body]
fn string_from_chars(cs: &Vec<char>) -> (s: String)
    ensures
        s@ == cs@,
{
    cs.iter().collect()
}

/// `s` without its leading whitespace characters.
pub open spec fn trim_start_ws(s: Seq<char>) -> Seq<char>
    decreases s.len(),
{
    if s.len() > 0 && unicode_ws(s[0]) {
        trim_start_ws(s.drop_first())
    } else {
        s
    }
}

/// `s` without its trailing whitespace characters.
pub open spec fn trim_end_ws(s: Seq<char>) -> Seq<char>
    decreases s.len(),
{
    if s.len() > 0 && unicode_ws(s.last()) {
        trim_end_ws(s.drop_last())
    } else {
        s
    }
}

/// `s` without its leading and trailing whitespace, as `str::trim` leaves it.
pub open spec fn trim_ws(s: Seq<char>) -> Seq<char> {
    trim_end_ws(trim_start_ws(s))
}

/// The text without leading and trailing whitespace.
pub fn trim(text: &str) -> (s: String)
    ensures
        s@ == trim_ws(text@),
{
    let cs = chars_of(text);
    let n = cs.len();
    let mut i: usize = 0;
    assert(text@.subrange(0, n as int) =~= text@);
    while i < n && is_whitespace(cs[i])
        invariant
            cs@ == text@,
            n == cs@.len(),
            i <= n,
            trim_start_ws(text@) == trim_start_ws(text@.subrange(i as int, n as int)),
        decreases n - i,
    {
        assert(text@.subrange(i as int, n as int).drop_first() =~= text@.subrange(i + 1, n as int));
        i += 1;
    }
    let mut j: usize = n;
    while j > i && is_whitespace(cs[j - 1])
        invariant
            cs@ == text@,
            n == cs@.len(),
            i <= j <= n,
            i < n ==> !unicode_ws(text@[i as int]),
            trim_ws(text@) == trim_end_ws(text@.subrange(i as int, j as int)),
        decreases j - i,
    {
        assert(text@.subrange(i as int, j as int).drop_last() =~= text@.subrange(i as int, j - 1));
        j -= 1;
    }
    let mut out: Vec<char> = Vec::new();
    let mut k: usize = i;
    while k < j
        invariant
            cs@ == text@,
            i <= k <= j <= n,
            n == cs@.len(),
            out@ == text@.subrange(i as int, k as int),
        decreases j - k,
    {
        out.push(cs[k]);
        assert(out@ =~= text@.subrange(i as int, k + 1));
        k += 1;
    }
    string_from_chars(&out)
}

/// Joining a list with one more word adds a space and the word.
proof fn lemma_join_push(ws: Seq<Seq<char>>, w: Seq<char>)
    ensures
        join_words(ws.push(w)) == if ws.len() == 0 {
            w
        } else {
            join_words(ws) + seq![' '] + w
        },
{
    assert(ws.push(w).drop_last() =~= ws);
}

/// Extending the last word of a list extends the joined text.
proof fn lemma_join_extend_last(ws: Seq<Seq<char>>, c: char)
    requires
        ws.len() > 0,
    ensures
        join_words(ws.update(ws.len() - 1, ws.last().push(c))) == join_words(ws).push(c),
{
    let ws2 = ws.update(ws.len() - 1, ws.last().push(c));
    if ws.len() > 1 {
        assert(ws2.drop_last() =~= ws.drop_last());
    }
}

/// The first `n` items of `ws`, or all of them when there are fewer.
pub open spec fn first_n(ws: Seq<Seq<char>>, n: nat) -> Seq<Seq<char>> {
    if ws.len() <= n {
        ws
    } else {
        ws.take(n as int)
    }
}

/// The first `n` words of `text`, joined with single spaces.
pub fn first_words(text: &str, n: usize) -> (s: String)
    ensures
        s@ == join_words(first_n(words(text@), n as nat)),
{
    let cs = chars_of(text);
    let mut out: Vec<char> = Vec::new();
    let mut count: usize = 0;
    let mut in_word = false;
    let mut i: usize = 0;
    assert(text@.take(0) =~= Seq::<char>::empty());
    while i < cs.len()
        invariant
            cs@ == text@,
            i <= cs@.len(),
            count == words(text@.take(i as int)).len(),
            in_word == (i > 0 && !unicode_ws(text@[i - 1])),
            out@ == join_words(first_n(words(text@.take(i as int)), n as nat)),
        decreases cs@.len() - i,
    {
        let ghost t = text@.take(i + 1);
        let ghost w0 = words(text@.take(i as int));
        let ghost w1 = words(t);
        assert(t.drop_last() =~= text@.take(i as int));
        proof {
            lemma_words_basics(t.drop_last());
            lemma_words_basics(t);
        }
        let c = cs[i];
        assert(t.last() == c);
        if is_whitespace(c) {
            assert(w1 == w0);
            in_word = false;
        } else {
            if !in_word {
                assert(w1 == w0.push(seq![c]));
                proof {
                    if w0.len() < n {
                        lemma_join_push(w0, seq![c]);
                    } else {
                        assert(w1.take(n as int) =~= w0.take(n as int));
                    }
                }
                if count < n {
                    if count > 0 {
                        out.push(' ');
                    }
                    out.push(c);
                    assert(out@ =~= join_words(first_n(w1, n as nat)));
                } else {
                    assert(first_n(w1, n as nat) == first_n(w0, n as nat));
                }
                count += 1;
            } else {
                assert(t[t.len() - 2] == text@[i - 1]);
                assert(w1 == w0.update(w0.len() - 1, w0.last().push(c)));
                proof {
                    if w0.len() <= n {
                        lemma_join_extend_last(w0, c);
                    } else {
                        assert(w1.take(n as int) =~= w0.take(n as int));
                    }
                }
                if count <= n {
                    out.push(c);
                    assert(out@ =~= join_words(first_n(w1, n as nat)));
                } else {
                    assert(first_n(w1, n as nat) == first_n(w0, n as nat));
                }
            }
            in_word = true;
        }
        i += 1;
    }
    assert(text@.take(cs@.len() as int) =~= text@);
    string_from_chars(&out)
}

/// Law (asking for enough words gives them all): when at least as many words
/// are asked for as the text holds, the answer is every word of the text.
pub proof fn lemma_first_words_all(ws: Seq<Seq<char>>, n: nat)
    requires
        ws.len() <= n,
    ensures
        first_n(ws, n) == ws,
{
}

} // verus!
