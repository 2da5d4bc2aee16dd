//! Character sequences: trimming and substring replacement, as the
//! command templates need them.

use vstd::prelude::*;
use vstd::string::*;

verus! {

/// Whether `c` carries the Unicode property `White_Space`.
pub open spec fn is_white_space(c: char) -> bool {
    let n = c as u32;
    ||| 0x09 <= n <= 0x0d
    ||| n == 0x20
    ||| n == 0x85
    ||| n == 0xa0
    ||| n == 0x1680
    ||| 0x2000 <= n <= 0x200a
    ||| n == 0x2028
    ||| n == 0x2029
    ||| n == 0x202f
    ||| n == 0x205f
    ||| n == 0x3000
}

/// `s` without its leading white space.
pub open spec fn trim_start_of(s: Seq<char>) -> Seq<char>
    decreases s.len(),
{
    if s.len() > 0 && is_white_space(s[0]) {
        trim_start_of(s.drop_first())
    } else {
        s
    }
}

/// `s` without its trailing white space.
pub open spec fn trim_end_of(s: Seq<char>) -> Seq<char>
    decreases s.len(),
{
    if s.len() > 0 && is_white_space(s.last()) {
        trim_end_of(s.drop_last())
    } else {
        s
    }
}

/// `s` without leading and trailing white space.
pub open spec fn trim_of(s: Seq<char>) -> Seq<char> {
    trim_end_of(trim_start_of(s))
}

/// `s` with every occurrence of `pat` replaced by `rep`, the occurrences
/// found from left to right and never overlapping. An empty `pat` occurs
/// nowhere: the result is `s`.
pub open spec fn replace_all(s: Seq<char>, pat: Seq<char>, rep: Seq<char>) -> Seq<char>
    decreases s.len(),
{
    if pat.len() == 0 || s.len() < pat.len() {
        s
    } else if s.subrange(0, pat.len() as int) == pat {
        rep + replace_all(s.subrange(pat.len() as int, s.len() as int), pat, rep)
    } else {
        seq![s[0]] + replace_all(s.drop_first(), pat, rep)
    }
}

/// Whether `pat` occurs in `s` at position `i`.
pub open spec fn occurs_at(s: Seq<char>, pat: Seq<char>, i: int) -> bool {
    0 <= i && i + pat.len() <= s.len() && s.subrange(i, i + pat.len()) == pat
}

/// Whether `pat` occurs somewhere in `s`.
pub open spec fn occurs_in(s: Seq<char>, pat: Seq<char>) -> bool {
    exists|i: int| occurs_at(s, pat, i)
}

/// The parts written one after another with `sep` between them.
pub open spec fn joined(parts: Seq<Seq<char>>, sep: Seq<char>) -> Seq<char>
    decreases parts.len(),
{
    if parts.len() == 0 {
        Seq::empty()
    } else if parts.len() == 1 {
        parts[0]
    } else {
        joined(parts.drop_last(), sep) + sep + parts.last()
    }
}

/// Writes the strings of `parts` one after another with `sep` between them.
pub fn join(parts: &Vec<String>, sep: &str) -> (out: String)
    ensures
        out@ == joined(parts@.map_values(|s: String| s@), sep@),
{
    let mut out = String::new();
    let ghost all = parts@.map_values(|s: String| s@);
    let mut i: usize = 0;
    while i < parts.len()
        invariant
            i <= parts.len(),
            all == parts@.map_values(|s: String| s@),
            out@ == joined(all.take(i as int), sep@),
        decreases parts.len() - i,
    {
        proof {
            assert(all.take(i + 1).drop_last() == all.take(i as int));
            assert(all.take(i + 1).last() == parts@[i as int]@);
        }
        if i > 0 {
            out.append(sep);
        } else {
            proof {
                assert(Seq::<char>::empty() + parts@[i as int]@ == parts@[i as int]@);
            }
        }
        out.append(parts[i].as_str());
        i += 1;
    }
    proof {
        assert(all.take(parts.len() as int) == all);
    }
    out
}

/// What is left of `s` once leading white space is removed starts with no
/// white space, and is the end of `s`.
pub proof fn lemma_trim_start(s: Seq<char>)
    ensures
        trim_start_of(s).len() > 0 ==> !is_white_space(trim_start_of(s)[0]),
        trim_start_of(s).len() <= s.len(),
        trim_start_of(s) == s.skip(s.len() - trim_start_of(s).len()),
    decreases s.len(),
{
    if s.len() > 0 && is_white_space(s[0]) {
        let rest = s.drop_first();
        lemma_trim_start(rest);
        let kept = trim_start_of(rest);
        assert(rest.skip(rest.len() - kept.len()) == s.skip(s.len() - kept.len()));
    } else {
        assert(s.skip(0) == s);
    }
}

/// What is left of `s` once trailing white space is removed ends with no
/// white space, and is the start of `s`.
pub proof fn lemma_trim_end(s: Seq<char>)
    ensures
        trim_end_of(s).len() > 0 ==> !is_white_space(trim_end_of(s).last()),
        trim_end_of(s).len() <= s.len(),
        trim_end_of(s) == s.take(trim_end_of(s).len() as int),
    decreases s.len(),
{
    if s.len() > 0 && is_white_space(s.last()) {
        let rest = s.drop_last();
        lemma_trim_end(rest);
        let kept = trim_end_of(rest);
        assert(rest.take(kept.len() as int) == s.take(kept.len() as int));
    } else {
        assert(s.take(s.len() as int) == s);
    }
}

/// A trimmed sequence has white space at neither end.
pub proof fn lemma_trim_clean(s: Seq<char>)
    ensures
        trim_of(s).len() > 0 ==> !is_white_space(trim_of(s)[0]) && !is_white_space(
            trim_of(s).last(),
        ),
        trim_of(s).len() <= s.len(),
{
    let front = trim_start_of(s);
    lemma_trim_start(s);
    lemma_trim_end(front);
}

/// Trimming twice is trimming once.
pub proof fn lemma_trim_idempotent(s: Seq<char>)
    ensures
        trim_of(trim_of(s)) == trim_of(s),
{
    lemma_trim_clean(s);
}

/// A sequence in which `pat` does not occur is left as it is.
pub proof fn lemma_replace_absent(s: Seq<char>, pat: Seq<char>, rep: Seq<char>)
    requires
        !occurs_in(s, pat),
    ensures
        replace_all(s, pat, rep) == s,
    decreases s.len(),
{
    if pat.len() == 0 || s.len() < pat.len() {
    } else {
        assert(!occurs_at(s, pat, 0));
        let rest = s.drop_first();
        assert forall|i: int| !occurs_at(rest, pat, i) by {
            if occurs_at(rest, pat, i) {
                assert(rest.subrange(i, i + pat.len()) == s.subrange(i + 1, i + 1 + pat.len()));
                assert(occurs_at(s, pat, i + 1));
            }
        }
        lemma_replace_absent(rest, pat, rep);
        assert(seq![s[0]] + rest == s);
    }
}

/// What occurs in a sequence occurs in it when more follows.
pub proof fn lemma_occurs_in_front(a: Seq<char>, b: Seq<char>, pat: Seq<char>)
    requires
        occurs_in(a, pat),
    ensures
        occurs_in(a + b, pat),
{
    let i = choose|i: int| occurs_at(a, pat, i);
    assert((a + b).subrange(i, i + pat.len()) == a.subrange(i, i + pat.len()));
    assert(occurs_at(a + b, pat, i));
}

/// What occurs in a sequence occurs in it when more comes before.
pub proof fn lemma_occurs_in_back(a: Seq<char>, b: Seq<char>, pat: Seq<char>)
    requires
        occurs_in(b, pat),
    ensures
        occurs_in(a + b, pat),
{
    let i = choose|i: int| occurs_at(b, pat, i);
    assert((a + b).subrange(a.len() + i, a.len() + i + pat.len()) == b.subrange(
        i,
        i + pat.len(),
    ));
    assert(occurs_at(a + b, pat, a.len() + i));
}

/// Every sequence occurs in itself.
pub proof fn lemma_occurs_in_itself(a: Seq<char>)
    ensures
        occurs_in(a, a),
{
    assert(a.subrange(0, a.len() as int) == a);
    assert(occurs_at(a, a, 0));
}

/// Whether `c` carries the Unicode property `White_Space`.
pub fn is_space(c: char) -> (r: bool)
    ensures
        r == is_white_space(c),
{
    let n: u32 = c as u32;
    (0x09 <= n && n <= 0x0d) || n == 0x20 || n == 0x85 || n == 0xa0 || n == 0x1680 || (0x2000 <= n
        && n <= 0x200a) || n == 0x2028 || n == 0x2029 || n == 0x202f || n == 0x205f || n == 0x3000
}

/// Where the first `k` characters of `s` are white space and the next one
/// is not, removing the leading white space removes just those `k`.
pub proof fn lemma_trim_start_at(s: Seq<char>, k: int)
    requires
        0 <= k <= s.len(),
        forall|j: int| 0 <= j < k ==> is_white_space(#[trigger] s[j]),
        k < s.len() ==> !is_white_space(s[k]),
    ensures
        trim_start_of(s) == s.skip(k),
    decreases k,
{
    if k == 0 {
        assert(s.skip(0) == s);
    } else {
        let rest = s.drop_first();
        assert forall|j: int| 0 <= j < k - 1 implies is_white_space(#[trigger] rest[j]) by {
            assert(rest[j] == s[j + 1]);
        }
        lemma_trim_start_at(rest, k - 1);
        assert(rest.skip(k - 1) == s.skip(k));
    }
}

/// Where the characters of `s` from `m` on are white space and the one
/// before is not, removing the trailing white space leaves the first `m`.
pub proof fn lemma_trim_end_at(s: Seq<char>, m: int)
    requires
        0 <= m <= s.len(),
        forall|j: int| m <= j < s.len() ==> is_white_space(#[trigger] s[j]),
        m > 0 ==> !is_white_space(s[m - 1]),
    ensures
        trim_end_of(s) == s.take(m),
    decreases s.len() - m,
{
    if m == s.len() {
        assert(s.take(m) == s);
    } else {
        let rest = s.drop_last();
        assert(is_white_space(s[s.len() - 1]));
        assert forall|j: int| m <= j < rest.len() implies is_white_space(#[trigger] rest[j]) by {
            assert(rest[j] == s[j]);
        }
        lemma_trim_end_at(rest, m);
        assert(rest.take(m) == s.take(m));
    }
}

/// The slice of `s` without leading and trailing white space.
pub fn trim<'a>(s: &'a str) -> (r: &'a str)
    ensures
        r@ == trim_of(s@),
{
    let n = s.unicode_len();
    let mut start: usize = 0;
    while start < n && is_space(s.get_char(start))
        invariant
            start <= n,
            n == s@.len(),
            forall|j: int| 0 <= j < start ==> is_white_space(#[trigger] s@[j]),
        decreases n - start,
    {
        start += 1;
    }
    let mut end: usize = n;
    while end > start && is_space(s.get_char(end - 1))
        invariant
            start <= end <= n,
            n == s@.len(),
            forall|j: int| end <= j < n ==> is_white_space(#[trigger] s@[j]),
        decreases end,
    {
        end -= 1;
    }
    proof {
        let front = s@.skip(start as int);
        lemma_trim_start_at(s@, start as int);
        assert forall|j: int| end - start <= j < front.len() implies is_white_space(
            #[trigger] front[j],
        ) by {
            assert(front[j] == s@[j + start]);
        }
        if end > start {
            assert(front[end - start - 1] == s@[end - 1]);
        }
        lemma_trim_end_at(front, end - start);
        assert(front.take(end - start) == s@.subrange(start as int, end as int));
    }
    s.substring_char(start, end)
}

/// Whether `pat` occurs in `s` at place `i`.
pub fn matches_at(s: &str, pat: &str, i: usize) -> (r: bool)
    ensures
        r == occurs_at(s@, pat@, i as int),
{
    let n = s.unicode_len();
    let m = pat.unicode_len();
    if i > n || m > n - i {
        return false;
    }
    let mut j: usize = 0;
    while j < m
        invariant
            j <= m,
            m == pat@.len(),
            n == s@.len(),
            i + m <= n,
            forall|k: int| 0 <= k < j ==> s@[i + k] == #[trigger] pat@[k],
        decreases m - j,
    {
        if s.get_char(i + j) != pat.get_char(j) {
            proof {
                let part = s@.subrange(i as int, i + m);
                assert(part[j as int] == s@[i + j]);
            }
            return false;
        }
        j += 1;
    }
    proof {
        assert(s@.subrange(i as int, i + m) =~= pat@);
    }
    true
}

/// `s` with every occurrence of `pat` replaced by `rep`, the occurrences
/// found from left to right and never overlapping. With an empty `pat`
/// the result is `s`.
pub fn replace(s: &str, pat: &str, rep: &str) -> (r: String)
    ensures
        r@ == replace_all(s@, pat@, rep@),
{
    let n = s.unicode_len();
    let m = pat.unicode_len();
    if m == 0 {
        return s.to_owned();
    }
    let mut out = String::new();
    let mut i: usize = 0;
    proof {
        assert(s@.skip(0) == s@);
        assert(Seq::<char>::empty() + replace_all(s@, pat@, rep@) == replace_all(
            s@,
            pat@,
            rep@,
        ));
    }
    while i < n && n - i >= m
        invariant
            i <= n,
            n == s@.len(),
            m == pat@.len(),
            m > 0,
            out@ + replace_all(s@.skip(i as int), pat@, rep@) == replace_all(s@, pat@, rep@),
        decreases n - i,
    {
        let ghost tail = s@.skip(i as int);
        let ghost before = out@;
        if matches_at(s, pat, i) {
            out.append(rep);
            proof {
                assert(tail.subrange(0, m as int) == s@.subrange(i as int, i + m));
                assert(tail.subrange(m as int, tail.len() as int) == s@.skip(i + m));
                let rest = replace_all(s@.skip(i + m), pat@, rep@);
                assert((before + rep@) + rest == before + (rep@ + rest));
            }
            i += m;
        } else {
            let one = s.substring_char(i, i + 1);
            out.append(one);
            proof {
                assert(tail.subrange(0, m as int) == s@.subrange(i as int, i + m));
                assert(tail.drop_first() == s@.skip(i + 1));
                assert(one@ == seq![tail[0]]);
                let rest = replace_all(s@.skip(i + 1), pat@, rep@);
                assert((before + one@) + rest == before + (one@ + rest));
            }
            i += 1;
        }
    }
    let rest = s.substring_char(i, n);
    out.append(rest);
    proof {
        assert(rest@ == s@.skip(i as int));
    }
    out
}

/// The slice of `s` without trailing white space.
pub fn trim_end<'a>(s: &'a str) -> (r: &'a str)
    ensures
        r@ == trim_end_of(s@),
{
    let n = s.unicode_len();
    let mut end: usize = n;
    while end > 0 && is_space(s.get_char(end - 1))
        invariant
            end <= n,
            n == s@.len(),
            forall|j: int| end <= j < n ==> is_white_space(#[trigger] s@[j]),
        decreases end,
    {
        end -= 1;
    }
    proof {
        lemma_trim_end_at(s@, end as int);
        assert(s@.take(end as int) == s@.subrange(0, end as int));
    }
    s.substring_char(0, end)
}

/// Whether two strings are the same.
pub fn same(a: &str, b: &str) -> (r: bool)
    ensures
        r == (a@ == b@),
{
    a.to_owned() == b.to_owned()
}

/// Whether `s` ends with `suffix`.
pub open spec fn ends_with(s: Seq<char>, suffix: Seq<char>) -> bool {
    s.len() >= suffix.len() && s.skip(s.len() - suffix.len()) == suffix
}

/// Whether `s` ends with `suffix`.
pub fn has_suffix(s: &str, suffix: &str) -> (r: bool)
    ensures
        r == ends_with(s@, suffix@),
{
    let n = s.unicode_len();
    let m = suffix.unicode_len();
    if m > n {
        return false;
    }
    proof {
        assert(s@.skip(n - m) == s@.subrange(n - m, n - m + m));
    }
    matches_at(s, suffix, n - m)
}

/// `s` without the characters `c` at its end.
pub open spec fn strip_end_of(s: Seq<char>, c: char) -> Seq<char>
    decreases s.len(),
{
    if s.len() > 0 && s.last() == c {
        strip_end_of(s.drop_last(), c)
    } else {
        s
    }
}

/// The slice of `s` without the characters `c` at its end.
pub fn strip_end<'a>(s: &'a str, c: char) -> (r: &'a str)
    ensures
        r@ == strip_end_of(s@, c),
{
    let n = s.unicode_len();
    let mut end: usize = n;
    proof {
        assert(s@.take(n as int) == s@);
    }
    while end > 0 && s.get_char(end - 1) == c
        invariant
            end <= n,
            n == s@.len(),
            strip_end_of(s@, c) == strip_end_of(s@.take(end as int), c),
        decreases end,
    {
        proof {
            assert(s@.take(end as int).drop_last() == s@.take(end - 1));
        }
        end -= 1;
    }
    proof {
        assert(s@.take(end as int) == s@.subrange(0, end as int));
    }
    s.substring_char(0, end)
}

/// The word in the making, as a list of its own; nothing where it is empty.
pub open spec fn finished(word: Seq<char>) -> Seq<Seq<char>> {
    if word.len() > 0 {
        seq![word]
    } else {
        Seq::empty()
    }
}

/// The words of `s`, read from left to right with `word` already read of
/// the word in the making.
pub open spec fn words_after(s: Seq<char>, word: Seq<char>) -> Seq<Seq<char>>
    decreases s.len(),
{
    if s.len() == 0 {
        finished(word)
    } else if is_white_space(s[0]) {
        finished(word) + words_after(s.drop_first(), Seq::empty())
    } else {
        words_after(s.drop_first(), word.push(s[0]))
    }
}

/// The words of `s`: its longest runs of characters that are no white space.
pub open spec fn words_of(s: Seq<char>) -> Seq<Seq<char>> {
    words_after(s, Seq::empty())
}

/// Whether none of the characters of `word` is white space.
pub open spec fn spaceless(word: Seq<char>) -> bool {
    forall|j: int| 0 <= j < word.len() ==> !is_white_space(#[trigger] word[j])
}

/// Every word is a run of characters that are no white space, and none is
/// empty.
pub proof fn lemma_words_are_spaceless(s: Seq<char>, word: Seq<char>)
    requires
        spaceless(word),
    ensures
        forall|k: int|
            0 <= k < words_after(s, word).len() ==> (#[trigger] words_after(s, word)[k]).len() > 0
                && spaceless(words_after(s, word)[k]),
    decreases s.len(),
{
    let all = words_after(s, word);
    if s.len() > 0 {
        if is_white_space(s[0]) {
            let rest = words_after(s.drop_first(), Seq::empty());
            lemma_words_are_spaceless(s.drop_first(), Seq::empty());
            assert forall|k: int| 0 <= k < all.len() implies (#[trigger] all[k]).len() > 0
                && spaceless(all[k]) by {
                if k < finished(word).len() {
                    assert(all[k] == word);
                } else {
                    assert(all[k] == rest[k - finished(word).len()]);
                }
            }
        } else {
            let longer = word.push(s[0]);
            assert forall|j: int| 0 <= j < longer.len() implies !is_white_space(
                #[trigger] longer[j],
            ) by {
                if j < word.len() {
                    assert(longer[j] == word[j]);
                }
            }
            lemma_words_are_spaceless(s.drop_first(), longer);
            assert(all == words_after(s.drop_first(), longer));
        }
    } else {
        assert forall|k: int| 0 <= k < all.len() implies (#[trigger] all[k]).len() > 0
            && spaceless(all[k]) by {
            assert(all[k] == word);
        }
    }
}

/// The words of `s`: its longest runs of characters that are no white space.
pub fn words(s: &str) -> (out: Vec<String>)
    ensures
        out@.map_values(|w: String| w@) == words_of(s@),
{
    let n = s.unicode_len();
    let mut out: Vec<String> = Vec::new();
    let mut start: usize = 0;
    let mut i: usize = 0;
    proof {
        assert(s@.skip(0) == s@);
        assert(s@.subrange(0, 0) == Seq::<char>::empty());
        assert(out@.map_values(|w: String| w@) == Seq::<Seq<char>>::empty());
        assert(Seq::<Seq<char>>::empty() + words_of(s@) == words_of(s@));
    }
    while i < n
        invariant
            start <= i <= n,
            n == s@.len(),
            out@.map_values(|w: String| w@) + words_after(
                s@.skip(i as int),
                s@.subrange(start as int, i as int),
            ) == words_of(s@),
        decreases n - i,
    {
        let ghost done = out@.map_values(|w: String| w@);
        let ghost word = s@.subrange(start as int, i as int);
        let ghost tail = s@.skip(i as int);
        proof {
            assert(tail[0] == s@[i as int]);
            assert(tail.drop_first() == s@.skip(i + 1));
        }
        if is_space(s.get_char(i)) {
            if i > start {
                let w = s.substring_char(start, i);
                out.push(w.to_owned());
                proof {
                    assert(out@.map_values(|w: String| w@) == done + seq![word]);
                    let rest = words_after(s@.skip(i + 1), Seq::empty());
                    assert((done + seq![word]) + rest == done + (seq![word] + rest));
                }
            } else {
                proof {
                    let rest = words_after(s@.skip(i + 1), Seq::empty());
                    assert(done + (Seq::<Seq<char>>::empty() + rest) == done + rest);
                }
            }
            start = i + 1;
            proof {
                assert(s@.subrange(i + 1, i + 1) == Seq::<char>::empty());
            }
        } else {
            proof {
                assert(s@.subrange(start as int, i + 1) == word.push(s@[i as int]));
            }
        }
        i += 1;
    }
    let ghost done = out@.map_values(|w: String| w@);
    let ghost word = s@.subrange(start as int, n as int);
    proof {
        assert(s@.skip(n as int).len() == 0);
    }
    if n > start {
        let w = s.substring_char(start, n);
        out.push(w.to_owned());
        proof {
            assert(out@.map_values(|w: String| w@) == done + seq![word]);
        }
    } else {
        proof {
            assert(done + Seq::<Seq<char>>::empty() == done);
        }
    }
    out
}

} // verus!
