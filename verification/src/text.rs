//! Plain text as sequences of characters: what a line, a field, a prefix and a
//! replacement are, and functions that compute them.

use vstd::prelude::*;

verus! {

/// `String::push` puts the character behind the last one and changes nothing else.
pub assume_specification[ String::push ](s: &mut String, c: char)
    ensures
        final(s)@ == old(s)@.push(c),
;

/// The Unicode property `White_Space`.
pub open spec fn is_whitespace(c: char) -> bool {
    let n = c as u32;
    ||| 0x9 <= n <= 0xd
    ||| n == 0x20
    ||| n == 0x85
    ||| n == 0xa0
    ||| n == 0x1680
    ||| 0x2000 <= n <= 0x200a
    ||| n == 0x2028
    ||| n == 0x2029
    ||| n == 0x202f
    ||| n == 0x205f
    ||| n == 0x3000
}

/// `s` without the white space at its start.
pub open spec fn trim_start(s: Seq<char>) -> Seq<char>
    decreases s.len(),
{
    if s.len() > 0 && is_whitespace(s[0]) {
        trim_start(s.skip(1))
    } else {
        s
    }
}

/// The number of characters before the first white space of `s`.
pub open spec fn word_len(s: Seq<char>) -> nat
    decreases s.len(),
{
    if s.len() > 0 && !is_whitespace(s[0]) {
        1 + word_len(s.skip(1))
    } else {
        0
    }
}

/// The fields of `s`: its longest runs of characters that are not white space.
pub open spec fn words(s: Seq<char>) -> Seq<Seq<char>>
    decreases s.len(),
{
    let t = trim_start(s);
    if t.len() == 0 {
        Seq::empty()
    } else {
        proof {
            lemma_trim_start(s);
            lemma_word_len(t);
        }
        seq![t.take(word_len(t) as int)] + words(t.skip(word_len(t) as int))
    }
}

/// `s` without one carriage return at its end.
pub open spec fn strip_cr(s: Seq<char>) -> Seq<char> {
    if s.len() > 0 && s.last() == '\r' {
        s.drop_last()
    } else {
        s
    }
}

/// The number of characters before the first newline of `s`, or all of them.
pub open spec fn line_len(s: Seq<char>) -> nat
    decreases s.len(),
{
    if s.len() > 0 && s[0] != '\n' {
        1 + line_len(s.skip(1))
    } else {
        0
    }
}

/// The lines of `s`. A line ends at `\n` or `\r\n`, which is no part of it; the
/// last line may lack its ending, and then keeps a `\r` that it ends with.
pub open spec fn lines(s: Seq<char>) -> Seq<Seq<char>>
    decreases s.len(),
{
    if s.len() == 0 {
        Seq::empty()
    } else {
        proof {
            lemma_line_len(s);
        }
        let n = line_len(s) as int;
        if n < s.len() {
            seq![strip_cr(s.take(n))] + lines(s.skip(n + 1))
        } else {
            seq![s]
        }
    }
}

/// `pat` stands in `s` at position `i`.
pub open spec fn occurs_at(s: Seq<char>, pat: Seq<char>, i: int) -> bool {
    &&& 0 <= i <= s.len() - pat.len()
    &&& s.subrange(i, i + pat.len()) == pat
}

/// `pat` stands somewhere in `s`.
pub open spec fn contains(s: Seq<char>, pat: Seq<char>) -> bool {
    exists|i: int| occurs_at(s, pat, i)
}

/// `s` with each `pat` in it, read from the left without overlap, replaced by `with`.
pub open spec fn replaced(s: Seq<char>, pat: Seq<char>, with: Seq<char>) -> Seq<char>
    decreases s.len(),
{
    if s.len() == 0 || pat.len() == 0 {
        s
    } else if pat.is_prefix_of(s) {
        with + replaced(s.skip(pat.len() as int), pat, with)
    } else {
        seq![s[0]] + replaced(s.skip(1), pat, with)
    }
}

/// Whether `c` is white space.
pub fn char_is_whitespace(c: char) -> (r: bool)
    ensures
        r == is_whitespace(c),
{
    let n: u32 = c as u32;
    (0x9 <= n && n <= 0xd) || n == 0x20 || n == 0x85 || n == 0xa0 || n == 0x1680 || (0x2000 <= n
        && n <= 0x200a) || n == 0x2028 || n == 0x2029 || n == 0x202f || n == 0x205f || n == 0x3000
}

/// The characters of `s`.
pub fn to_chars(s: &str) -> (r: Vec<char>)
    ensures
        r@ == s@,
{
    let mut out: Vec<char> = Vec::new();
    for c in it: s.chars()
        invariant
            out@ == it.seq().take(it.index() as int),
            it.seq() == s@,
    {
        out.push(c);
    }
    out
}

/// The text made of `chars`.
pub fn to_text(chars: &[char]) -> (r: String)
    ensures
        r@ == chars@,
{
    let mut out = String::new();
    let mut i: usize = 0;
    while i < chars.len()
        invariant
            i <= chars@.len(),
            out@ == chars@.take(i as int),
        decreases chars@.len() - i,
    {
        out.push(chars[i]);
        i += 1;
    }
    out
}

/// What `trim_start` leaves is the end of the text, and starts with no white space.
pub proof fn lemma_trim_start(s: Seq<char>)
    ensures
        trim_start(s).len() <= s.len(),
        trim_start(s) == s.skip(s.len() - trim_start(s).len()),
        trim_start(s).len() > 0 ==> !is_whitespace(trim_start(s)[0]),
    decreases s.len(),
{
    if s.len() > 0 && is_whitespace(s[0]) {
        lemma_trim_start(s.skip(1));
        assert(s.skip(1).skip(s.len() - 1 - trim_start(s).len()) == s.skip(
            s.len() - trim_start(s).len(),
        ));
    }
}

/// `word_len` stops at the first white space, or at the end.
pub proof fn lemma_word_len(s: Seq<char>)
    ensures
        word_len(s) <= s.len(),
        s.len() > 0 && !is_whitespace(s[0]) ==> word_len(s) > 0,
        forall|i: int| 0 <= i < word_len(s) ==> !is_whitespace(#[trigger] s[i]),
        word_len(s) < s.len() ==> is_whitespace(s[word_len(s) as int]),
    decreases s.len(),
{
    if s.len() > 0 && !is_whitespace(s[0]) {
        lemma_word_len(s.skip(1));
        assert forall|i: int| 0 <= i < word_len(s) implies !is_whitespace(#[trigger] s[i]) by {
            if i > 0 {
                assert(s[i] == s.skip(1)[i - 1]);
            }
        }
    }
}

/// `line_len` stops at the first newline, or at the end.
pub proof fn lemma_line_len(s: Seq<char>)
    ensures
        line_len(s) <= s.len(),
        forall|i: int| 0 <= i < line_len(s) ==> #[trigger] s[i] != '\n',
        line_len(s) < s.len() ==> s[line_len(s) as int] == '\n',
    decreases s.len(),
{
    if s.len() > 0 && s[0] != '\n' {
        lemma_line_len(s.skip(1));
        assert forall|i: int| 0 <= i < line_len(s) implies #[trigger] s[i] != '\n' by {
            if i > 0 {
                assert(s[i] == s.skip(1)[i - 1]);
            }
        }
    }
}

/// The first newline of `s` is where `line_len` says.
pub proof fn lemma_line_len_is(s: Seq<char>, n: int)
    requires
        0 <= n <= s.len(),
        forall|i: int| 0 <= i < n ==> #[trigger] s[i] != '\n',
        n < s.len() ==> s[n] == '\n',
    ensures
        line_len(s) == n,
{
    lemma_line_len(s);
}

/// The first white space of `s` is where `word_len` says.
pub proof fn lemma_word_len_is(s: Seq<char>, n: int)
    requires
        0 <= n <= s.len(),
        forall|i: int| 0 <= i < n ==> !is_whitespace(#[trigger] s[i]),
        n < s.len() ==> is_whitespace(s[n]),
    ensures
        word_len(s) == n,
{
    lemma_word_len(s);
}

/// `chars` without the white space at its start.
pub fn trimmed_start(chars: &[char]) -> (r: &[char])
    ensures
        r@ == trim_start(chars@),
{
    let mut i: usize = 0;
    assert(chars@.skip(0) == chars@);
    while i < chars.len() && char_is_whitespace(chars[i])
        invariant
            i <= chars@.len(),
            trim_start(chars@) == trim_start(chars@.skip(i as int)),
        decreases chars@.len() - i,
    {
        assert(chars@.skip(i as int).skip(1) == chars@.skip(i + 1));
        i += 1;
    }
    assert(chars@.skip(i as int) == chars@.subrange(i as int, chars@.len() as int));
    vstd::slice::slice_subrange(chars, i, chars.len())
}

/// Whether `pat` stands in `text` at position `i`.
pub fn found_at(text: &[char], pat: &[char], i: usize) -> (r: bool)
    ensures
        r == occurs_at(text@, pat@, i as int),
{
    if i > text.len() || text.len() - i < pat.len() {
        return false;
    }
    let mut k: usize = 0;
    while k < pat.len()
        invariant
            k <= pat@.len(),
            i + pat@.len() <= text.len(),
            forall|j: int| 0 <= j < k ==> text@[i + j] == #[trigger] pat@[j],
        decreases pat@.len() - k,
    {
        if text[i + k] != pat[k] {
            assert(text@.subrange(i as int, i + pat@.len())[k as int] != pat@[k as int]);
            return false;
        }
        k += 1;
    }
    assert(text@.subrange(i as int, i + pat@.len()) =~= pat@);
    true
}

/// Whether `text` starts with `pat`.
pub fn starts_with(text: &[char], pat: &[char]) -> (r: bool)
    ensures
        r == pat@.is_prefix_of(text@),
{
    found_at(text, pat, 0)
}

/// Whether `text` ends with `pat`.
pub fn ends_with(text: &[char], pat: &[char]) -> (r: bool)
    ensures
        r == pat@.is_suffix_of(text@),
{
    pat.len() <= text.len() && found_at(text, pat, text.len() - pat.len())
}

/// Whether `pat` stands somewhere in `text`.
pub fn found_in(text: &[char], pat: &[char]) -> (r: bool)
    ensures
        r == contains(text@, pat@),
{
    if text.len() < pat.len() {
        return false;
    }
    let mut i: usize = 0;
    while i <= text.len() - pat.len()
        invariant
            pat@.len() <= text@.len(),
            i <= text@.len() - pat@.len() + 1,
            forall|j: int| 0 <= j < i ==> !occurs_at(text@, pat@, j),
        decreases text@.len() - i,
    {
        if found_at(text, pat, i) {
            return true;
        }
        if i == text.len() - pat.len() {
            return false;
        }
        i += 1;
    }
    false
}

/// `text` with each `pat`, read from the left, replaced by `with`.
pub fn replace_all(text: &str, pat: &str, with: &str) -> (r: String)
    requires
        pat@.len() > 0,
    ensures
        r@ == replaced(text@, pat@, with@),
{
    let text = to_chars(text);
    let pat = to_chars(pat);
    let mut out = String::new();
    let mut i: usize = 0;
    assert(text@.skip(0) == text@);
    while i < text.len()
        invariant
            i <= text@.len(),
            pat@.len() > 0,
            replaced(text@, pat@, with@) == out@ + replaced(text@.skip(i as int), pat@, with@),
        decreases text@.len() - i,
    {
        let ghost rest = text@.skip(i as int);
        let ghost before = out@;
        if found_at(&text, &pat, i) {
            proof {
                assert(rest.subrange(0, pat@.len() as int) == text@.subrange(
                    i as int,
                    i + pat@.len(),
                ));
                assert(rest.skip(pat@.len() as int) == text@.skip(i + pat@.len()));
            }
            out.append(with);
            i += pat.len();
            assert(out@ + replaced(text@.skip(i as int), pat@, with@) == before + (with@ + replaced(
                text@.skip(i as int),
                pat@,
                with@,
            )));
        } else {
            proof {
                if pat@.is_prefix_of(rest) {
                    assert(rest.subrange(0, pat@.len() as int) == text@.subrange(
                        i as int,
                        i + pat@.len(),
                    ));
                }
                assert(rest.skip(1) == text@.skip(i + 1));
            }
            out.push(text[i]);
            i += 1;
            assert(out@ + replaced(text@.skip(i as int), pat@, with@) == before + (seq![rest[0]]
                + replaced(text@.skip(i as int), pat@, with@)));
        }
    }
    assert(text@.skip(i as int) == Seq::<char>::empty());
    out
}

/// The lines of `text`, as `str::lines` gives them.
pub fn split_lines(text: &str) -> (r: Vec<Vec<char>>)
    ensures
        r.deep_view() == lines(text@),
{
    let text = to_chars(text);
    let mut out: Vec<Vec<char>> = Vec::new();
    let mut start: usize = 0;
    assert(text@.skip(0) == text@);
    while start < text.len()
        invariant
            start <= text@.len(),
            lines(text@) == out.deep_view() + lines(text@.skip(start as int)),
        decreases text@.len() - start,
    {
        let ghost rest = text@.skip(start as int);
        let ghost before = out.deep_view();
        let mut end: usize = start;
        while end < text.len() && text[end] != '\n'
            invariant
                start <= end <= text@.len(),
                forall|j: int| start <= j < end ==> #[trigger] text@[j] != '\n',
            decreases text@.len() - end,
        {
            end += 1;
        }
        proof {
            assert forall|j: int| 0 <= j < end - start implies #[trigger] rest[j] != '\n' by {
                assert(rest[j] == text@[start + j]);
            }
            lemma_line_len_is(rest, end - start);
        }
        if end < text.len() {
            let stop: usize = if end > start && text[end - 1] == '\r' {
                end - 1
            } else {
                end
            };
            let line = vstd::slice::slice_to_vec(
                vstd::slice::slice_subrange(text.as_slice(), start, stop),
            );
            proof {
                assert(rest.take(end - start) == text@.subrange(start as int, end as int));
                assert(line@ == strip_cr(rest.take(end - start)));
                assert(rest.skip(end - start + 1) == text@.skip(end + 1));
            }
            out.push(line);
            start = end + 1;
            assert(out.deep_view() == before.push(line.deep_view()));
            assert(line.deep_view() == line@);
            assert(out.deep_view() + lines(text@.skip(start as int)) == before + (seq![line@]
                + lines(text@.skip(start as int))));
        } else {
            let line = vstd::slice::slice_to_vec(
                vstd::slice::slice_subrange(text.as_slice(), start, end),
            );
            assert(line@ == rest);
            out.push(line);
            start = end;
            assert(out.deep_view() == before.push(line.deep_view()));
            assert(line.deep_view() == line@);
            assert(text@.skip(start as int) == Seq::<char>::empty());
            assert(out.deep_view() + lines(text@.skip(start as int)) == before + seq![line@]);
        }
    }
    assert(text@.skip(start as int) == Seq::<char>::empty());
    out
}

/// The fields of `text`, as `str::split_whitespace` gives them.
pub fn split_words(text: &[char]) -> (r: Vec<Vec<char>>)
    ensures
        r.deep_view() == words(text@),
{
    let mut out: Vec<Vec<char>> = Vec::new();
    let mut rest = trimmed_start(text);
    proof {
        lemma_words_trim(text@);
        assert(words(text@) == out.deep_view() + words(rest@));
    }
    while rest.len() > 0
        invariant
            rest@ == trim_start(rest@),
            words(text@) == out.deep_view() + words(rest@),
        decreases rest@.len(),
    {
        let ghost before = out.deep_view();
        let mut n: usize = 0;
        while n < rest.len() && !char_is_whitespace(rest[n])
            invariant
                n <= rest@.len(),
                forall|j: int| 0 <= j < n ==> !is_whitespace(#[trigger] rest@[j]),
            decreases rest@.len() - n,
        {
            n += 1;
        }
        let word = vstd::slice::slice_to_vec(vstd::slice::slice_subrange(rest, 0, n));
        let tail = vstd::slice::slice_subrange(rest, n, rest.len());
        let next = trimmed_start(tail);
        proof {
            lemma_word_len_is(rest@, n as int);
            lemma_trim_start(rest@);
            lemma_word_len(rest@);
            lemma_trim_start(tail@);
            assert(tail@ == rest@.skip(n as int));
            assert(word@ == rest@.take(n as int));
            lemma_words_trim(tail@);
        }
        out.push(word);
        assert(out.deep_view() == before.push(word.deep_view()));
        assert(word.deep_view() == word@);
        assert(out.deep_view() + words(next@) == before + (seq![word@] + words(next@)));
        rest = next;
    }
    assert(words(rest@) == Seq::<Seq<char>>::empty());
    out
}

/// Leading white space adds no field.
pub proof fn lemma_words_trim(s: Seq<char>)
    ensures
        trim_start(trim_start(s)) == trim_start(s),
        words(trim_start(s)) == words(s),
{
    lemma_trim_start(s);
}

/// `a` and `b` differ at a position that both have.
pub open spec fn clash(a: Seq<char>, b: Seq<char>) -> bool {
    exists|k: int| 0 <= k < a.len() && k < b.len() && #[trigger] a[k] != b[k]
}

/// `q` cannot reach from kept text into an inserted `with`.
pub open spec fn no_overlap_into(q: Seq<char>, with: Seq<char>) -> bool {
    forall|j: int| 0 <= j < q.len() ==> clash(#[trigger] q.skip(j), with)
}

/// `q` cannot start inside an inserted `with`.
pub open spec fn no_start_inside(q: Seq<char>, with: Seq<char>) -> bool {
    forall|i: int| 0 <= i < with.len() ==> clash(#[trigger] with.skip(i), q)
}

/// What a replacement starts with, if it cannot reach into the inserted text, the
/// original started with too.
pub proof fn lemma_replaced_prefix(s: Seq<char>, pat: Seq<char>, with: Seq<char>, q: Seq<char>)
    requires
        no_overlap_into(q, with),
        q.is_prefix_of(replaced(s, pat, with)),
    ensures
        q.is_prefix_of(s),
    decreases s.len(),
{
    let out = replaced(s, pat, with);
    if q.len() > 0 && s.len() > 0 && pat.len() > 0 {
        assert(forall|k: int| 0 <= k < q.len() ==> out[k] == #[trigger] q[k]);
        if pat.is_prefix_of(s) {
            assert(q.skip(0) == q);
            let k = choose|k: int| 0 <= k < q.len() && k < with.len() && #[trigger] q[k] != with[k];
            assert(out[k] == with[k]);
        } else {
            let rest = replaced(s.skip(1), pat, with);
            let tail = q.skip(1);
            assert(rest.subrange(0, tail.len() as int) =~= tail) by {
                assert forall|k: int| 0 <= k < tail.len() implies rest[k] == #[trigger] tail[k] by {
                    assert(rest[k] == out[k + 1]);
                    assert(tail[k] == q[k + 1]);
                }
            }
            assert forall|j: int| 0 <= j < tail.len() implies clash(
                #[trigger] tail.skip(j),
                with,
            ) by {
                assert(tail.skip(j) == q.skip(j + 1));
            }
            lemma_replaced_prefix(s.skip(1), pat, with, tail);
            assert(s.subrange(0, q.len() as int) =~= q) by {
                assert forall|k: int| 0 <= k < q.len() implies s[k] == #[trigger] q[k] by {
                    if k == 0 {
                        assert(out[0] == s[0]);
                    } else {
                        assert(q[k] == tail[k - 1]);
                        assert(s.skip(1).subrange(0, tail.len() as int)[k - 1] == tail[k - 1]);
                    }
                }
            }
        }
    }
}

/// An occurrence in the tail of `s` is one in `s`.
pub proof fn lemma_contains_skip(s: Seq<char>, q: Seq<char>, n: int)
    requires
        0 <= n <= s.len(),
        contains(s.skip(n), q),
    ensures
        contains(s, q),
{
    let i = choose|i: int| occurs_at(s.skip(n), q, i);
    assert(s.subrange(n + i, n + i + q.len()) == s.skip(n).subrange(i, i + q.len()));
    assert(occurs_at(s, q, n + i));
}

/// A replacement leaves no `q` where `q` is the replaced pattern, or did not occur
/// before, and no `q` can overlap the inserted text.
pub proof fn lemma_replaced_absent(s: Seq<char>, pat: Seq<char>, with: Seq<char>, q: Seq<char>)
    requires
        q.len() > 0,
        pat.len() > 0,
        no_overlap_into(q, with),
        no_start_inside(q, with),
        q == pat || !contains(s, q),
    ensures
        !contains(replaced(s, pat, with), q),
    decreases s.len(),
{
    let out = replaced(s, pat, with);
    if contains(out, q) {
        let i = choose|i: int| occurs_at(out, q, i);
        assert(forall|k: int| 0 <= k < q.len() ==> out[i + k] == #[trigger] q[k]) by {
            assert forall|k: int| 0 <= k < q.len() implies out[i + k] == #[trigger] q[k] by {
                assert(out.subrange(i, i + q.len())[k] == out[i + k]);
            }
        }
        if pat.is_prefix_of(s) && s.len() > 0 {
            let p = pat.len() as int;
            let rest = replaced(s.skip(p), pat, with);
            if i < with.len() {
                assert(clash(with.skip(i), q));
                let k = choose|k: int|
                    0 <= k < with.skip(i).len() && k < q.len() && #[trigger] with.skip(i)[k] != q[k];
                assert(out[i + k] == with[i + k]);
            } else {
                assert(rest.subrange(i - with.len(), i - with.len() + q.len()) == out.subrange(
                    i,
                    i + q.len(),
                ));
                assert(occurs_at(rest, q, i - with.len()));
                if contains(s.skip(p), q) {
                    lemma_contains_skip(s, q, p);
                }
                lemma_replaced_absent(s.skip(p), pat, with, q);
            }
        } else if s.len() > 0 {
            let rest = replaced(s.skip(1), pat, with);
            if i == 0 {
                lemma_replaced_prefix(s, pat, with, q);
                assert(occurs_at(s, q, 0));
            } else {
                assert(rest.subrange(i - 1, i - 1 + q.len()) == out.subrange(i, i + q.len()));
                assert(occurs_at(rest, q, i - 1));
                if contains(s.skip(1), q) {
                    lemma_contains_skip(s, q, 1);
                }
                lemma_replaced_absent(s.skip(1), pat, with, q);
            }
        }
    }
}

/// Where each `pat` is replaced by itself with `pre` put before it, each `pat` of the
/// result has `pre` before it.
pub proof fn lemma_replaced_all_preceded(s: Seq<char>, pre: Seq<char>, pat: Seq<char>, i: int)
    requires
        pat.len() > 0,
        no_overlap_into(pat, pre + pat),
        forall|j: int|
            0 <= j < pre.len() + pat.len() && j != pre.len() ==> clash(
                #[trigger] (pre + pat).skip(j),
                pat,
            ),
        occurs_at(replaced(s, pat, pre + pat), pat, i),
    ensures
        i >= pre.len(),
        replaced(s, pat, pre + pat).subrange(i - pre.len(), i) == pre,
    decreases s.len(),
{
    let with = pre + pat;
    let out = replaced(s, pat, with);
    assert(forall|k: int| 0 <= k < pat.len() ==> out[i + k] == #[trigger] pat[k]) by {
        assert forall|k: int| 0 <= k < pat.len() implies out[i + k] == #[trigger] pat[k] by {
            assert(out.subrange(i, i + pat.len())[k] == out[i + k]);
        }
    }
    if pat.is_prefix_of(s) && s.len() > 0 {
        let p = pat.len() as int;
        let rest = replaced(s.skip(p), pat, with);
        if i < with.len() {
            if i != pre.len() {
                assert(clash(with.skip(i), pat));
                let k = choose|k: int|
                    0 <= k < with.skip(i).len() && k < pat.len() && #[trigger] with.skip(i)[k]
                        != pat[k];
                assert(out[i + k] == with[i + k]);
            }
            assert(out.subrange(i - pre.len(), i) =~= pre);
        } else {
            let r = i - with.len();
            assert(rest.subrange(r, r + pat.len()) == out.subrange(i, i + pat.len()));
            lemma_replaced_all_preceded(s.skip(p), pre, pat, r);
            assert(out.subrange(i - pre.len(), i) =~= rest.subrange(r - pre.len(), r));
        }
    } else if s.len() > 0 {
        let rest = replaced(s.skip(1), pat, with);
        if i == 0 {
            lemma_replaced_prefix(s, pat, with, pat);
        } else {
            assert(rest.subrange(i - 1, i - 1 + pat.len()) == out.subrange(i, i + pat.len()));
            lemma_replaced_all_preceded(s.skip(1), pre, pat, i - 1);
            assert(out.subrange(i - pre.len(), i) =~= rest.subrange(i - 1 - pre.len(), i - 1));
        }
    }
}

/// Where `pat` does not occur, nothing is replaced.
pub proof fn lemma_replaced_nothing(s: Seq<char>, pat: Seq<char>, with: Seq<char>)
    requires
        !contains(s, pat),
    ensures
        replaced(s, pat, with) == s,
    decreases s.len(),
{
    if s.len() > 0 && pat.len() > 0 {
        if pat.is_prefix_of(s) {
            assert(occurs_at(s, pat, 0));
        }
        if contains(s.skip(1), pat) {
            lemma_contains_skip(s, pat, 1);
        }
        lemma_replaced_nothing(s.skip(1), pat, with);
        assert(seq![s[0]] + s.skip(1) =~= s);
    }
}

/// A start of the text in which no `pat` can begin is kept by a replacement.
pub proof fn lemma_replaced_after(head: Seq<char>, s: Seq<char>, pat: Seq<char>, with: Seq<char>)
    requires
        no_start_inside(pat, head),
    ensures
        replaced(head + s, pat, with) == head + replaced(s, pat, with),
    decreases head.len(),
{
    if head.len() == 0 {
        assert(head + s == s);
        assert(head + replaced(s, pat, with) == replaced(s, pat, with));
    } else {
        let whole = head + s;
        let tail = head.skip(1);
        assert(head.skip(0) == head);
        assert(clash(head.skip(0), pat));
        let k = choose|k: int| 0 <= k < head.len() && k < pat.len() && #[trigger] head[k] != pat[k];
        assert(!pat.is_prefix_of(whole)) by {
            if pat.is_prefix_of(whole) {
                assert(whole.subrange(0, pat.len() as int)[k] == head[k]);
            }
        }
        assert(whole.skip(1) == tail + s);
        assert forall|i: int| 0 <= i < tail.len() implies clash(#[trigger] tail.skip(i), pat) by {
            assert(tail.skip(i) == head.skip(i + 1));
        }
        lemma_replaced_after(tail, s, pat, with);
        assert(replaced(whole, pat, with) == seq![head[0]] + (tail + replaced(s, pat, with)));
        assert(replaced(whole, pat, with) =~= head + replaced(s, pat, with));
    }
}

/// Where each `pat` was replaced by `mark + with`, taking each `mark` away gives what is had
/// where each `pat` is replaced by `with`: the text held no `mark`, and no other `mark` can
/// come to stand in it.
pub proof fn lemma_replaced_unmarked(s: Seq<char>, pat: Seq<char>, mark: Seq<char>, with: Seq<char>)
    requires
        pat.len() > 0,
        mark.len() > 0,
        !contains(s, mark),
        no_overlap_into(mark.skip(1), mark + with),
        no_start_inside(mark, with),
    ensures
        replaced(replaced(s, pat, mark + with), mark, Seq::empty()) == replaced(s, pat, with),
    decreases s.len(),
{
    let none = Seq::<char>::empty();
    let marked = replaced(s, pat, mark + with);
    if s.len() > 0 && pat.is_prefix_of(s) {
        let rest = s.skip(pat.len() as int);
        let tail = replaced(rest, pat, mark + with);
        if contains(rest, mark) {
            lemma_contains_skip(s, mark, pat.len() as int);
        }
        lemma_replaced_unmarked(rest, pat, mark, with);
        assert(marked == mark + (with + tail));
        assert(marked.subrange(0, mark.len() as int) =~= mark);
        assert(marked.skip(mark.len() as int) =~= with + tail);
        assert(none + replaced(with + tail, mark, none) =~= replaced(with + tail, mark, none));
        lemma_replaced_after(with, tail, mark, none);
    } else if s.len() > 0 {
        let rest = s.skip(1);
        let tail = replaced(rest, pat, mark + with);
        if contains(rest, mark) {
            lemma_contains_skip(s, mark, 1);
        }
        lemma_replaced_unmarked(rest, pat, mark, with);
        assert(marked.skip(1) =~= tail);
        assert(!mark.is_prefix_of(marked)) by {
            if mark.is_prefix_of(marked) {
                assert(forall|k: int| 0 <= k < mark.len() ==> marked[k] == #[trigger] mark[k]);
                assert(tail.subrange(0, mark.len() - 1) =~= mark.skip(1)) by {
                    assert forall|k: int| 0 <= k < mark.len() - 1 implies tail[k] == mark[k + 1] by {
                        assert(tail[k] == marked[k + 1]);
                    }
                }
                lemma_replaced_prefix(rest, pat, mark + with, mark.skip(1));
                assert(s.subrange(0, mark.len() as int) =~= mark) by {
                    assert forall|k: int| 0 <= k < mark.len() implies s[k] == #[trigger] mark[k] by {
                        if k == 0 {
                            assert(marked[0] == s[0]);
                        } else {
                            assert(rest.subrange(0, mark.len() - 1)[k - 1] == mark.skip(1)[k - 1]);
                        }
                    }
                }
                assert(occurs_at(s, mark, 0));
            }
        }
    }
}

/// Only white space is cut from the start of a text, and all of it.
pub proof fn law_white_space_at_the_start_is_cut(space: Seq<char>, s: Seq<char>)
    requires
        forall|i: int| 0 <= i < space.len() ==> is_whitespace(#[trigger] space[i]),
        s.len() == 0 || !is_whitespace(s[0]),
    ensures
        trim_start(space + s) == s,
    decreases space.len(),
{
    if space.len() == 0 {
        assert(space + s =~= s);
    } else {
        let rest = space.skip(1);
        assert forall|i: int| 0 <= i < rest.len() implies is_whitespace(#[trigger] rest[i]) by {
            assert(rest[i] == space[i + 1]);
        }
        law_white_space_at_the_start_is_cut(rest, s);
        assert((space + s)[0] == space[0]);
        assert((space + s).skip(1) =~= rest + s);
    }
}

/// White space parts fields and belongs to none; what stands between is a field, whole.
pub proof fn law_white_space_parts_fields(word: Seq<char>, space: char, rest: Seq<char>)
    requires
        word.len() > 0,
        forall|i: int| 0 <= i < word.len() ==> !is_whitespace(#[trigger] word[i]),
        is_whitespace(space),
    ensures
        words(Seq::empty()) == Seq::<Seq<char>>::empty(),
        words(word) == seq![word],
        words(word + seq![space] + rest) == seq![word] + words(rest),
        words(seq![space] + rest) == words(rest),
{
    let s = word + seq![space] + rest;
    let tail = seq![space] + rest;
    assert(trim_start(s) == s) by {
        assert(s[0] == word[0]);
    }
    assert forall|i: int| 0 <= i < word.len() implies !is_whitespace(#[trigger] s[i]) by {
        assert(s[i] == word[i]);
    }
    lemma_word_len_is(s, word.len() as int);
    assert(s.take(word.len() as int) =~= word);
    assert(s.skip(word.len() as int) =~= tail);
    assert(tail.skip(1) =~= rest);
    assert(trim_start(tail) == trim_start(rest));
    lemma_words_trim(tail);
    lemma_words_trim(rest);

    lemma_word_len_is(word, word.len() as int);
    assert(word.take(word.len() as int) =~= word);
    assert(word.skip(word.len() as int) =~= Seq::<char>::empty());
    assert(words(Seq::empty()) =~= Seq::<Seq<char>>::empty());
    assert(words(word) =~= seq![word]);
}

/// A newline, or a carriage return and a newline, ends a line and is no part of it. A last
/// line may lack its ending.
pub proof fn law_newline_ends_a_line(l: Seq<char>, rest: Seq<char>)
    requires
        !l.contains('\n'),
    ensures
        lines(Seq::empty()) == Seq::<Seq<char>>::empty(),
        l.len() > 0 ==> lines(l) == seq![l],
        l.len() == 0 || l.last() != '\r' ==> lines(l + seq!['\n'] + rest) == seq![l] + lines(rest),
        lines(l + seq!['\r', '\n'] + rest) == seq![l] + lines(rest),
{
    assert forall|i: int| 0 <= i < l.len() implies #[trigger] l[i] != '\n' by {
        assert(l.contains(l[i]));
    }
    lemma_line_len_is(l, l.len() as int);

    let plain = l + seq!['\n'] + rest;
    let n = l.len() as int;
    assert forall|i: int| 0 <= i < n implies #[trigger] plain[i] != '\n' by {
        assert(plain[i] == l[i]);
    }
    lemma_line_len_is(plain, n);
    assert(plain.take(n) =~= l);
    assert(plain.skip(n + 1) =~= rest);

    let returned = l + seq!['\r', '\n'] + rest;
    assert forall|i: int| 0 <= i < n + 1 implies #[trigger] returned[i] != '\n' by {
        if i < n {
            assert(returned[i] == l[i]);
        }
    }
    lemma_line_len_is(returned, n + 1);
    assert(returned.take(n + 1).drop_last() =~= l);
    assert(returned.skip(n + 2) =~= rest);
}

/// A text holds another at a place exactly where it is made of so many characters, the other
/// and something; and holds it somewhere exactly where it is made of something, the other and
/// something.
pub proof fn law_held_text_is_a_part(s: Seq<char>, pat: Seq<char>, at: int)
    ensures
        occurs_at(s, pat, at) <==> exists|a: Seq<char>, b: Seq<char>|
            s == #[trigger] (a + pat + b) && a.len() == at,
        contains(s, pat) <==> exists|a: Seq<char>, b: Seq<char>| s == #[trigger] (a + pat + b),
{
    if occurs_at(s, pat, at) {
        let (a, b) = (s.take(at), s.skip(at + pat.len()));
        assert(s.subrange(at, at + pat.len()) == pat);
        assert(s =~= a + s.subrange(at, at + pat.len()) + b);
        assert(s == a + pat + b && a.len() == at);
    }
    if exists|a: Seq<char>, b: Seq<char>| s == #[trigger] (a + pat + b) && a.len() == at {
        let (a, b) = choose|a: Seq<char>, b: Seq<char>|
            s == #[trigger] (a + pat + b) && a.len() == at;
        assert(s.subrange(at, at + pat.len()) =~= pat);
    }
    if contains(s, pat) {
        let i = choose|i: int| occurs_at(s, pat, i);
        let (a, b) = (s.take(i), s.skip(i + pat.len()));
        assert(s.subrange(i, i + pat.len()) == pat);
        assert(s =~= a + s.subrange(i, i + pat.len()) + b);
        assert(s == a + pat + b);
    }
    if exists|a: Seq<char>, b: Seq<char>| s == #[trigger] (a + pat + b) {
        let (a, b) = choose|a: Seq<char>, b: Seq<char>| s == #[trigger] (a + pat + b);
        assert(s.subrange(a.len() as int, (a.len() + pat.len()) as int) =~= pat);
        assert(occurs_at(s, pat, a.len() as int));
    }
}

/// The first `pat` of a text gives way to `with`; what stands before it stays, and what
/// stands behind it is treated in the same way.
pub proof fn law_first_match_gives_way(
    a: Seq<char>,
    pat: Seq<char>,
    b: Seq<char>,
    with: Seq<char>,
)
    requires
        pat.len() > 0,
        forall|i: int|
            0 <= i < a.len() ==> #[trigger] (a + pat).subrange(i, i + pat.len()) != pat,
    ensures
        replaced(a + pat + b, pat, with) == a + with + replaced(b, pat, with),
    decreases a.len(),
{
    let s = a + pat + b;
    if a.len() == 0 {
        assert(s.subrange(0, pat.len() as int) =~= pat);
        assert(s.skip(pat.len() as int) =~= b);
        assert(a + with + replaced(b, pat, with) =~= with + replaced(b, pat, with));
    } else {
        let tail = a.skip(1);
        assert(s.subrange(0, pat.len() as int) =~= (a + pat).subrange(0, 0 + pat.len() as int));
        assert forall|i: int| 0 <= i < tail.len() implies #[trigger] (tail + pat).subrange(
            i,
            i + pat.len(),
        ) != pat by {
            assert((tail + pat).subrange(i, i + pat.len()) =~= (a + pat).subrange(
                i + 1,
                i + 1 + pat.len(),
            ));
        }
        law_first_match_gives_way(tail, pat, b, with);
        assert(s.skip(1) =~= tail + pat + b);
        assert(seq![s[0]] + (tail + with + replaced(b, pat, with)) =~= a + with + replaced(
            b,
            pat,
            with,
        ));
    }
}

/// A text without `pat` stays as it is.
pub proof fn law_text_without_match_stays(s: Seq<char>, pat: Seq<char>, with: Seq<char>)
    requires
        forall|i: int|
            0 <= i && i + pat.len() <= s.len() ==> #[trigger] s.subrange(i, i + pat.len()) != pat,
    ensures
        replaced(s, pat, with) == s,
{
    if contains(s, pat) {
        let i = choose|i: int| occurs_at(s, pat, i);
        assert(s.subrange(i, i + pat.len()) == pat);
    }
    lemma_replaced_nothing(s, pat, with);
}

/// Where `a` holds no `pat` and no part of `pat` can stand at both of its ends, the first
/// `pat` of `a + pat` is the one at the end.
pub proof fn lemma_first_match(a: Seq<char>, pat: Seq<char>, i: int)
    requires
        !contains(a, pat),
        forall|j: int| 0 < j < pat.len() ==> clash(#[trigger] pat.skip(j), pat),
        0 <= i < a.len(),
    ensures
        (a + pat).subrange(i, i + pat.len()) != pat,
{
    let s = a + pat;
    if s.subrange(i, i + pat.len()) == pat {
        if i + pat.len() <= a.len() {
            assert(a.subrange(i, i + pat.len()) =~= s.subrange(i, i + pat.len()));
            assert(occurs_at(a, pat, i));
        } else {
            let j = a.len() - i;
            assert(clash(pat.skip(j), pat));
            let k = choose|k: int|
                0 <= k < pat.skip(j).len() && k < pat.len() && #[trigger] pat.skip(j)[k] != pat[k];
            assert(s.subrange(i, i + pat.len())[j + k] == s[a.len() + k]);
        }
    }
}

/// No `pat` starts in `a + w`, where `a` holds none and none can reach into `w` or start in it.
pub proof fn lemma_no_start(a: Seq<char>, pat: Seq<char>, w: Seq<char>)
    requires
        !contains(a, pat),
        no_overlap_into(pat, w),
        no_start_inside(pat, w),
    ensures
        no_start_inside(pat, a + w),
{
    let s = a + w;
    assert forall|i: int| 0 <= i < s.len() implies clash(#[trigger] s.skip(i), pat) by {
        if i >= a.len() {
            assert(s.skip(i) =~= w.skip(i - a.len()));
        } else if i + pat.len() <= a.len() {
            if !clash(s.skip(i), pat) {
                assert forall|k: int| 0 <= k < pat.len() implies a.subrange(i, i + pat.len())[k]
                    == pat[k] by {
                    assert(s.skip(i)[k] == a[i + k]);
                }
                assert(a.subrange(i, i + pat.len()) =~= pat);
                assert(occurs_at(a, pat, i));
            }
        } else {
            let j = a.len() - i;
            assert(clash(pat.skip(j), w));
            let k = choose|k: int|
                0 <= k < pat.skip(j).len() && k < w.len() && #[trigger] pat.skip(j)[k] != w[k];
            assert(s.skip(i)[j + k] != pat[j + k]);
        }
    }
}

/// Where there was a `pat`, there is what it was replaced by.
pub proof fn lemma_replaced_holds(s: Seq<char>, pat: Seq<char>, with: Seq<char>)
    requires
        pat.len() > 0,
        contains(s, pat),
    ensures
        contains(replaced(s, pat, with), with),
    decreases s.len(),
{
    let i = choose|i: int| occurs_at(s, pat, i);
    let out = replaced(s, pat, with);
    if pat.is_prefix_of(s) {
        assert(out.subrange(0, with.len() as int) =~= with);
        assert(occurs_at(out, with, 0));
    } else {
        assert(i > 0) by {
            if i == 0 {
                assert(s.subrange(0, pat.len() as int) == pat);
            }
        }
        let rest = s.skip(1);
        assert(rest.subrange(i - 1, i - 1 + pat.len()) =~= s.subrange(i, i + pat.len()));
        assert(occurs_at(rest, pat, i - 1));
        lemma_replaced_holds(rest, pat, with);
        assert(out.skip(1) =~= replaced(rest, pat, with));
        lemma_contains_skip(out, with, 1);
    }
}

} // verus!
