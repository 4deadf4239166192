use vstd::prelude::*;
use vstd::string::StringExecFns;

verus! {

/// The characters with the Unicode `White_Space` property, of which
/// `char::is_whitespace` holds.
pub open spec fn spec_is_whitespace(c: char) -> bool {
    let u = c as u32;
    ||| 0x9 <= u <= 0xd
    ||| u == 0x20
    ||| u == 0x85
    ||| u == 0xa0
    ||| u == 0x1680
    ||| 0x2000 <= u <= 0x200a
    ||| u == 0x2028
    ||| u == 0x2029
    ||| u == 0x202f
    ||| u == 0x205f
    ||| u == 0x3000
}

/// Tells whether `c` is a whitespace character, as `char::is_whitespace` does.
pub fn is_whitespace(c: char) -> (ws: bool)
    ensures
        ws == spec_is_whitespace(c),
{
    let u = c as u32;
    (0x9 <= u && u <= 0xd) || u == 0x20 || u == 0x85 || u == 0xa0 || u == 0x1680 || (0x2000 <= u
        && u <= 0x200a) || u == 0x2028 || u == 0x2029 || u == 0x202f || u == 0x205f || u == 0x3000
}

/// `s` without its leading whitespace.
pub open spec fn spec_trim_start(s: Seq<char>) -> Seq<char>
    decreases s.len(),
{
    if s.len() > 0 && spec_is_whitespace(s[0]) {
        spec_trim_start(s.drop_first())
    } else {
        s
    }
}

/// `s` without its trailing whitespace.
pub open spec fn spec_trim_end(s: Seq<char>) -> Seq<char>
    decreases s.len(),
{
    if s.len() > 0 && spec_is_whitespace(s.last()) {
        spec_trim_end(s.drop_last())
    } else {
        s
    }
}

/// `s` without its leading and trailing whitespace.
pub open spec fn spec_trim(s: Seq<char>) -> Seq<char> {
    spec_trim_end(spec_trim_start(s))
}

proof fn lemma_trim_start_at(s: Seq<char>, k: int)
    requires
        0 <= k <= s.len(),
        forall|i: int| 0 <= i < k ==> spec_is_whitespace(#[trigger] s[i]),
        k == s.len() || !spec_is_whitespace(s[k]),
    ensures
        spec_trim_start(s) == s.subrange(k, s.len() as int),
    decreases k,
{
    if k == 0 {
        assert(s.subrange(0, s.len() as int) =~= s);
    } else {
        let t = s.drop_first();
        assert forall|i: int| 0 <= i < k - 1 implies spec_is_whitespace(#[trigger] t[i]) by {
            assert(t[i] == s[i + 1]);
        }
        lemma_trim_start_at(t, k - 1);
        assert(t.subrange(k - 1, t.len() as int) =~= s.subrange(k, s.len() as int));
    }
}

proof fn lemma_trim_end_at(s: Seq<char>, e: int)
    requires
        0 <= e <= s.len(),
        forall|i: int| e <= i < s.len() ==> spec_is_whitespace(#[trigger] s[i]),
        e == 0 || !spec_is_whitespace(s[e - 1]),
    ensures
        spec_trim_end(s) == s.subrange(0, e),
    decreases s.len() - e,
{
    if e == s.len() {
        assert(s.subrange(0, e) =~= s);
    } else {
        let t = s.drop_last();
        assert forall|i: int| e <= i < t.len() implies spec_is_whitespace(#[trigger] t[i]) by {
            assert(t[i] == s[i]);
        }
        lemma_trim_end_at(t, e);
        assert(t.subrange(0, e) =~= s.subrange(0, e));
    }
}

/// `s` without its leading and trailing whitespace, as `str::trim` gives it.
pub fn trim(s: &str) -> (t: &str)
    ensures
        t@ == spec_trim(s@),
{
    let n = s.unicode_len();
    let mut start: usize = 0;
    while start < n && is_whitespace(s.get_char(start))
        invariant
            n == s@.len(),
            start <= n,
            forall|i: int| 0 <= i < start ==> spec_is_whitespace(#[trigger] s@[i]),
        decreases n - start,
    {
        start = start + 1;
    }
    proof {
        lemma_trim_start_at(s@, start as int);
    }
    let ghost rest = s@.subrange(start as int, n as int);
    let mut end: usize = n;
    while end > start && is_whitespace(s.get_char(end - 1))
        invariant
            n == s@.len(),
            start <= end <= n,
            rest == s@.subrange(start as int, n as int),
            forall|i: int| end <= i < n ==> spec_is_whitespace(#[trigger] s@[i]),
        decreases end - start,
    {
        end = end - 1;
    }
    proof {
        assert forall|i: int| end - start <= i < rest.len() implies spec_is_whitespace(#[trigger] rest[i]) by {
            assert(rest[i] == s@[i + start]);
        }
        if end > start {
            assert(rest[end - start - 1] == s@[end - 1]);
        }
        lemma_trim_end_at(rest, end - start);
        assert(rest.subrange(0, end - start) =~= s@.subrange(start as int, end as int));
    }
    s.substring_char(start, end)
}

/// The word that `current` holds so far, as a list of zero or one word.
pub open spec fn pending_word(current: Seq<char>) -> Seq<Seq<char>> {
    if current.len() > 0 {
        seq![current]
    } else {
        Seq::empty()
    }
}

/// The whitespace-separated words of `s` from position `i` on, where the
/// word being read so far is `current`.
pub open spec fn words_from(s: Seq<char>, i: int, current: Seq<char>) -> Seq<Seq<char>>
    decreases s.len() - i,
{
    if i >= s.len() {
        pending_word(current)
    } else if spec_is_whitespace(s[i]) {
        pending_word(current) + words_from(s, i + 1, Seq::empty())
    } else {
        words_from(s, i + 1, current.push(s[i]))
    }
}

/// The whitespace-separated words of `s`, in order, as `str::split_whitespace`
/// gives them.
pub open spec fn spec_words(s: Seq<char>) -> Seq<Seq<char>> {
    words_from(s, 0, Seq::empty())
}

/// `seps[0] + words[0] + seps[1] + words[1] + ... + words[n-1] + seps[n]`.
pub open spec fn interleave(seps: Seq<Seq<char>>, words: Seq<Seq<char>>) -> Seq<char>
    decreases words.len(),
{
    if words.len() == 0 || seps.len() == 0 {
        if seps.len() > 0 {
            seps[0]
        } else {
            Seq::empty()
        }
    } else {
        seps[0] + words[0] + interleave(seps.drop_first(), words.drop_first())
    }
}

/// Every character of `s` is whitespace.
pub open spec fn all_whitespace(s: Seq<char>) -> bool {
    forall|i: int| 0 <= i < s.len() ==> spec_is_whitespace(#[trigger] s[i])
}

/// No character of `s` is whitespace.
pub open spec fn no_whitespace(s: Seq<char>) -> bool {
    forall|i: int| 0 <= i < s.len() ==> !spec_is_whitespace(#[trigger] s[i])
}

/// `words` are the maximal runs of non-whitespace characters of `line`: each
/// word is non-empty and holds no whitespace, and the line is the words with
/// runs of whitespace between them (at least one character between two
/// words, any number before the first and after the last).
pub open spec fn are_words_of(words: Seq<Seq<char>>, line: Seq<char>) -> bool {
    &&& forall|k: int| 0 <= k < words.len() ==> #[trigger] words[k].len() > 0 && no_whitespace(words[k])
    &&& exists|seps: Seq<Seq<char>>|
        {
            &&& seps.len() == words.len() + 1
            &&& forall|k: int| 0 <= k < seps.len() ==> all_whitespace(#[trigger] seps[k])
            &&& forall|k: int| 0 < k < words.len() ==> (#[trigger] seps[k]).len() > 0
            &&& line == interleave(seps, words)
        }
}

proof fn lemma_interleave_prefix(x: Seq<char>, seps: Seq<Seq<char>>, words: Seq<Seq<char>>)
    requires
        seps.len() == words.len() + 1,
    ensures
        interleave(seps.update(0, x + seps[0]), words) == x + interleave(seps, words),
{
    let u = seps.update(0, x + seps[0]);
    if words.len() == 0 {
        assert(interleave(u, words) == u[0]);
    } else {
        assert(u.drop_first() =~= seps.drop_first());
        assert(interleave(u, words) == u[0] + words[0] + interleave(u.drop_first(), words.drop_first()));
        assert(interleave(seps, words) == seps[0] + words[0] + interleave(seps.drop_first(), words.drop_first()));
        assert(u[0] + words[0] + interleave(seps.drop_first(), words.drop_first()) =~= x + (seps[0] + words[0]
            + interleave(seps.drop_first(), words.drop_first())));
    }
}

/// What `words_from` gives: the words of the word read so far followed by
/// the rest of the line.
proof fn lemma_words_from(s: Seq<char>, i: int, current: Seq<char>)
    requires
        0 <= i <= s.len(),
        no_whitespace(current),
    ensures
        are_words_of(words_from(s, i, current), current + s.subrange(i, s.len() as int)),
    decreases s.len() - i,
{
    let t = current + s.subrange(i, s.len() as int);
    let w = words_from(s, i, current);
    let e = Seq::<char>::empty();
    if i >= s.len() {
        assert(t =~= current);
        if current.len() == 0 {
            let seps = seq![e];
            assert(interleave(seps, w) == e);
            assert(t =~= e);
            assert(all_whitespace(seps[0]));
        } else {
            let seps = seq![e, e];
            assert(w == seq![current]);
            assert(interleave(seps.drop_first(), w.drop_first()) == e);
            assert(interleave(seps, w) =~= current);
            assert(forall|k: int| 0 <= k < seps.len() ==> all_whitespace(#[trigger] seps[k]));
            assert(w[0] == current);
        }
    } else if spec_is_whitespace(s[i]) {
        lemma_words_from(s, i + 1, e);
        let w2 = words_from(s, i + 1, e);
        let t2 = e + s.subrange(i + 1, s.len() as int);
        let seps2 = choose|seps: Seq<Seq<char>>|
            {
                &&& seps.len() == w2.len() + 1
                &&& forall|k: int| 0 <= k < seps.len() ==> all_whitespace(#[trigger] seps[k])
                &&& forall|k: int| 0 < k < w2.len() ==> (#[trigger] seps[k]).len() > 0
                &&& t2 == interleave(seps, w2)
            };
        let x = seq![s[i]];
        lemma_interleave_prefix(x, seps2, w2);
        let seps1 = seps2.update(0, x + seps2[0]);
        assert(all_whitespace(x + seps2[0])) by {
            assert(all_whitespace(seps2[0]));
        }
        assert forall|k: int| 0 <= k < seps1.len() implies all_whitespace(#[trigger] seps1[k]) by {
            if k != 0 {
                assert(seps1[k] == seps2[k]);
            }
        }
        assert(s.subrange(i, s.len() as int) =~= x + t2);
        if current.len() == 0 {
            assert(w == w2) by {
                assert(pending_word(current) =~= Seq::<Seq<char>>::empty());
                assert(pending_word(current) + w2 =~= w2);
            }
            assert(t =~= x + t2);
            assert forall|k: int| 0 < k < w.len() implies (#[trigger] seps1[k]).len() > 0 by {
                assert(seps1[k] == seps2[k]);
            }
        } else {
            let seps = seq![e] + seps1;
            assert(w =~= seq![current] + w2);
            assert(seps.drop_first() =~= seps1);
            assert(w.drop_first() =~= w2);
            assert(interleave(seps, w) == e + current + interleave(seps1, w2));
            assert(t =~= e + current + (x + t2));
            assert forall|k: int| 0 <= k < seps.len() implies all_whitespace(#[trigger] seps[k]) by {
                if k > 0 {
                    assert(seps[k] == seps1[k - 1]);
                }
            }
            assert forall|k: int| 0 < k < w.len() implies (#[trigger] seps[k]).len() > 0 by {
                assert(seps[k] == seps1[k - 1]);
                if k == 1 {
                    assert(seps1[0] == x + seps2[0]);
                } else {
                    assert(seps1[k - 1] == seps2[k - 1]);
                }
            }
            assert forall|k: int| 0 <= k < w.len() implies #[trigger] w[k].len() > 0 && no_whitespace(w[k]) by {
                if k > 0 {
                    assert(w[k] == w2[k - 1]);
                }
            }
        }
    } else {
        let c2 = current.push(s[i]);
        assert(no_whitespace(c2)) by {
            assert forall|j: int| 0 <= j < c2.len() implies !spec_is_whitespace(#[trigger] c2[j]) by {
                if j < current.len() {
                    assert(c2[j] == current[j]);
                }
            }
        }
        lemma_words_from(s, i + 1, c2);
        assert(c2 + s.subrange(i + 1, s.len() as int) =~= t);
    }
}

/// The words of a line are its maximal runs of non-whitespace characters:
/// no word is empty or holds whitespace, and between the words, before the
/// first and after the last, the line holds only whitespace, at least one
/// character of it between two words.
pub proof fn law_words_are_maximal_runs(line: Seq<char>)
    ensures
        are_words_of(spec_words(line), line),
{
    assert(no_whitespace(Seq::<char>::empty()));
    lemma_words_from(line, 0, Seq::empty());
    assert(Seq::<char>::empty() + line.subrange(0, line.len() as int) =~= line);
}

/// Splits a line into its whitespace-separated words.
pub fn split_words(line: &str) -> (words: Vec<String>)
    ensures
        words@.map_values(|w: String| w@) == spec_words(line@),
{
    let n = line.unicode_len();
    let mut words: Vec<String> = Vec::new();
    let mut start: usize = 0;
    let mut i: usize = 0;
    assert(line@.subrange(0, 0) =~= Seq::<char>::empty());
    assert(words@.map_values(|w: String| w@) =~= Seq::<Seq<char>>::empty());
    while i < n
        invariant
            n == line@.len(),
            start <= i <= n,
            words@.map_values(|w: String| w@) + words_from(
                line@,
                i as int,
                line@.subrange(start as int, i as int),
            ) == spec_words(line@),
        decreases n - i,
    {
        let ghost before = words@.map_values(|w: String| w@);
        let c = line.get_char(i);
        if is_whitespace(c) {
            if start < i {
                let word = String::from_str(line.substring_char(start, i));
                words.push(word);
                assert(words@.map_values(|w: String| w@) =~= before + seq![line@.subrange(start as int, i as int)]);
            } else {
                assert(words@.map_values(|w: String| w@) =~= before);
            }
            assert(line@.subrange((i + 1) as int, (i + 1) as int) =~= Seq::<char>::empty());
            start = i + 1;
        } else {
            assert(line@.subrange(start as int, i as int).push(c) =~= line@.subrange(start as int, (i + 1) as int));
        }
        i = i + 1;
    }
    let ghost before = words@.map_values(|w: String| w@);
    if start < n {
        let word = String::from_str(line.substring_char(start, n));
        words.push(word);
        assert(words@.map_values(|w: String| w@) =~= before + seq![line@.subrange(start as int, n as int)]);
    } else {
        assert(words@.map_values(|w: String| w@) =~= before + Seq::<Seq<char>>::empty());
    }
    words
}

/// Compares two strings character by character.
pub fn text_equals(a: &str, b: &str) -> (same: bool)
    ensures
        same == (a@ == b@),
{
    let n = a.unicode_len();
    if n != b.unicode_len() {
        return false;
    }
    let mut i: usize = 0;
    while i < n
        invariant
            n == a@.len() == b@.len(),
            i <= n,
            forall|k: int| 0 <= k < i ==> a@[k] == b@[k],
        decreases n - i,
    {
        if a.get_char(i) != b.get_char(i) {
            return false;
        }
        i = i + 1;
    }
    assert(a@ =~= b@);
    true
}

} // verus!
