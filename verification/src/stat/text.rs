//! Text as characters: its words and its lines.

use vstd::prelude::*;

verus! {

/// Whether `c` is white space: a character with Unicode's `White_Space`
/// property.
pub open spec fn is_space(c: char) -> bool {
    ||| '\u{0009}' <= c <= '\u{000D}'
    ||| c == '\u{0020}'
    ||| c == '\u{0085}'
    ||| c == '\u{00A0}'
    ||| c == '\u{1680}'
    ||| '\u{2000}' <= c <= '\u{200A}'
    ||| c == '\u{2028}'
    ||| c == '\u{2029}'
    ||| c == '\u{202F}'
    ||| c == '\u{205F}'
    ||| c == '\u{3000}'
}

/// The words of `s`: its longest runs of characters that are not white
/// space, from left to right.
///
/// Read from the left, a character that is white space ends the word before
/// it, if there is one; any other character carries on the word that the
/// character before it belongs to, or else starts a new one.
pub open spec fn words(s: Seq<char>) -> Seq<Seq<char>>
    decreases s.len(),
{
    if s.len() == 0 {
        Seq::empty()
    } else {
        let before = words(s.drop_last());
        if is_space(s.last()) {
            before
        } else if s.len() >= 2 && !is_space(s[s.len() - 2]) {
            before.drop_last().push(before.last().push(s.last()))
        } else {
            before.push(seq![s.last()])
        }
    }
}

/// Whether `s` has a word from `from` up to `to`: a run of characters that
/// are not white space, with white space or an end of `s` on either side.
pub open spec fn is_word_at(s: Seq<char>, from: int, to: int) -> bool {
    &&& 0 <= from < to <= s.len()
    &&& forall|k: int| from <= k < to ==> !is_space(#[trigger] s[k])
    &&& (from == 0 || is_space(s[from - 1]))
    &&& (to == s.len() || is_space(s[to]))
}

/// Where the words of `s` are, from left to right: for each the index of
/// its first character and the index after its last.
pub open spec fn word_places(s: Seq<char>) -> Seq<(int, int)>
    decreases s.len(),
{
    if s.len() == 0 {
        Seq::empty()
    } else {
        let before = word_places(s.drop_last());
        if is_space(s.last()) {
            before
        } else if s.len() >= 2 && !is_space(s[s.len() - 2]) {
            before.drop_last().push((before.last().0, s.len() as int))
        } else {
            before.push((s.len() - 1, s.len() as int))
        }
    }
}

/// The words of `s` are its longest runs of characters that are not white
/// space, all of them, from left to right: each word stands at its place,
/// each place holds such a run, the places follow one another with white
/// space between them, and there is no such run at any other place.
pub proof fn lemma_words_are_the_longest_runs(s: Seq<char>)
    ensures
        word_places(s).len() == words(s).len(),
        forall|i: int|
            0 <= i < words(s).len() ==> {
                &&& is_word_at(s, (#[trigger] word_places(s)[i]).0, word_places(s)[i].1)
                &&& words(s)[i] == s.subrange(word_places(s)[i].0, word_places(s)[i].1)
            },
        forall|i: int, j: int|
            0 <= i < j < words(s).len() ==> (#[trigger] word_places(s)[i]).1 < (
            #[trigger] word_places(s)[j]).0,
        forall|from: int, to: int|
            is_word_at(s, from, to) ==> exists|i: int|
                0 <= i < words(s).len() && #[trigger] word_places(s)[i] == (from, to),
    decreases s.len(),
{
    if s.len() > 0 {
        let t = s.drop_last();
        let n = s.len() as int;
        let c = s.last();
        let p = word_places(s);
        let q = word_places(t);
        lemma_words_are_the_longest_runs(t);
        assert forall|k: int| 0 <= k < n - 1 implies t[k] == s[k] by {}
        // a place that reaches the end of `t` is the last one.
        assert forall|i: int| 0 <= i < q.len() && q[i].1 == n - 1 implies i == q.len() - 1 by {
            if i < q.len() - 1 {
                assert(q[i].1 < q[q.len() - 1].0);
                assert(is_word_at(t, q[q.len() - 1].0, q[q.len() - 1].1));
            }
        }
        if is_space(c) {
            assert forall|i: int| 0 <= i < p.len() implies is_word_at(
                s,
                (#[trigger] p[i]).0,
                p[i].1,
            ) && words(s)[i] == s.subrange(p[i].0, p[i].1) by {
                assert(is_word_at(t, q[i].0, q[i].1));
                assert(t.subrange(q[i].0, q[i].1) =~= s.subrange(q[i].0, q[i].1));
            }
            assert forall|from: int, to: int| is_word_at(s, from, to) implies exists|i: int|
                0 <= i < words(s).len() && #[trigger] p[i] == (from, to) by {
                assert(!is_space(s[to - 1]));
                assert(is_word_at(t, from, to));
            }
        } else if n >= 2 && !is_space(s[n - 2]) {
            // the last word of `t` reaches its end, and `c` carries it on.
            assert(q.len() > 0 && q.last().1 == n - 1);
            let a0 = q.last().0;
            assert(is_word_at(t, a0, n - 1));
            assert forall|i: int| 0 <= i < p.len() implies is_word_at(
                s,
                (#[trigger] p[i]).0,
                p[i].1,
            ) && words(s)[i] == s.subrange(p[i].0, p[i].1) by {
                if i < p.len() - 1 {
                    assert(p[i] == q[i]);
                    assert(q[i].1 < q[q.len() - 1].0);
                    assert(is_word_at(t, q[i].0, q[i].1));
                    assert(t.subrange(q[i].0, q[i].1) =~= s.subrange(q[i].0, q[i].1));
                    assert(words(s)[i] == words(t)[i]);
                } else {
                    assert(p[i] == (a0, n));
                    assert(s.subrange(a0, n) =~= t.subrange(a0, n - 1).push(c));
                    assert forall|k: int| a0 <= k < n implies !is_space(#[trigger] s[k]) by {
                        if k < n - 1 {
                            assert(!is_space(t[k]));
                        }
                    }
                }
            }
            assert forall|i: int, j: int| 0 <= i < j < p.len() implies (#[trigger] p[i]).1 < (
            #[trigger] p[j]).0 by {
                assert(p[i] == q[i]);
                assert(q[i].1 < q[j].0);
            }
            assert forall|from: int, to: int| is_word_at(s, from, to) implies exists|i: int|
                0 <= i < words(s).len() && #[trigger] p[i] == (from, to) by {
                if to == n {
                    assert forall|k: int| from <= k < n - 1 implies !is_space(#[trigger] t[k]) by {
                        assert(!is_space(s[k]));
                    }
                    assert(is_word_at(t, from, n - 1));
                    let i = choose|i: int| 0 <= i < q.len() && #[trigger] q[i] == (from, n - 1);
                    assert(i == q.len() - 1);
                    assert(p[p.len() - 1] == (from, to));
                } else {
                    assert(is_space(s[to]));
                    assert forall|k: int| from <= k < to implies !is_space(#[trigger] t[k]) by {
                        assert(!is_space(s[k]));
                    }
                    assert(is_word_at(t, from, to));
                    let i = choose|i: int| 0 <= i < q.len() && #[trigger] q[i] == (from, to);
                    assert(i != q.len() - 1);
                    assert(p[i] == (from, to));
                }
            }
        } else {
            // `c` starts a new word, and no word of `t` reaches its end.
            assert forall|i: int| 0 <= i < q.len() implies (#[trigger] q[i]).1 < n - 1 by {
                assert(is_word_at(t, q[i].0, q[i].1));
                if q[i].1 == n - 1 {
                    assert(!is_space(t[n - 2]));
                }
            }
            assert forall|i: int| 0 <= i < p.len() implies is_word_at(
                s,
                (#[trigger] p[i]).0,
                p[i].1,
            ) && words(s)[i] == s.subrange(p[i].0, p[i].1) by {
                if i < p.len() - 1 {
                    assert(p[i] == q[i]);
                    assert(is_word_at(t, q[i].0, q[i].1));
                    assert(t.subrange(q[i].0, q[i].1) =~= s.subrange(q[i].0, q[i].1));
                } else {
                    assert(s.subrange(n - 1, n) =~= seq![c]);
                }
            }
            assert forall|i: int, j: int| 0 <= i < j < p.len() implies (#[trigger] p[i]).1 < (
            #[trigger] p[j]).0 by {
                assert(p[i] == q[i]);
                if j < p.len() - 1 {
                    assert(q[i].1 < q[j].0);
                }
            }
            assert forall|from: int, to: int| is_word_at(s, from, to) implies exists|i: int|
                0 <= i < words(s).len() && #[trigger] p[i] == (from, to) by {
                if to == n {
                    if from < n - 1 {
                        assert(!is_space(s[n - 2]));
                    }
                    assert(p[p.len() - 1] == (from, to));
                } else {
                    assert(is_space(s[to]));
                    assert forall|k: int| from <= k < to implies !is_space(#[trigger] t[k]) by {
                        assert(!is_space(s[k]));
                    }
                    assert(is_word_at(t, from, to));
                    let i = choose|i: int| 0 <= i < q.len() && #[trigger] q[i] == (from, to);
                    assert(p[i] == (from, to));
                }
            }
        }
    }
}

/// The lines of `s`, from first to last.
///
/// A line feed ends a line and is no part of it. What follows the last line
/// feed is a line too, unless nothing follows it.
pub open spec fn lines(s: Seq<char>) -> Seq<Seq<char>>
    decreases s.len(),
{
    if s.len() == 0 {
        Seq::empty()
    } else {
        let before = lines(s.drop_last());
        let open = s.len() >= 2 && s[s.len() - 2] != '\n';
        if s.last() == '\n' {
            if open {
                before
            } else {
                before.push(Seq::empty())
            }
        } else {
            if open {
                before.drop_last().push(before.last().push(s.last()))
            } else {
                before.push(seq![s.last()])
            }
        }
    }
}

/// Whether `s` has a line from `from` up to `to`: a run of characters that
/// are not line feeds, which starts at the start of `s` or after a line
/// feed, and which a line feed ends, or else the end of `s`, if the run is
/// not empty.
pub open spec fn is_line_at(s: Seq<char>, from: int, to: int) -> bool {
    &&& 0 <= from <= to <= s.len()
    &&& forall|k: int| from <= k < to ==> #[trigger] s[k] != '\n'
    &&& (from == 0 || s[from - 1] == '\n')
    &&& if to < s.len() {
        s[to] == '\n'
    } else {
        from < to
    }
}

/// Where the lines of `s` are, from first to last: for each the index of
/// its first character and the index after its last.
pub open spec fn line_places(s: Seq<char>) -> Seq<(int, int)>
    decreases s.len(),
{
    if s.len() == 0 {
        Seq::empty()
    } else {
        let before = line_places(s.drop_last());
        let open = s.len() >= 2 && s[s.len() - 2] != '\n';
        if s.last() == '\n' {
            if open {
                before
            } else {
                before.push((s.len() - 1, s.len() - 1))
            }
        } else {
            if open {
                before.drop_last().push((before.last().0, s.len() as int))
            } else {
                before.push((s.len() - 1, s.len() as int))
            }
        }
    }
}

/// The lines of `s` are what its line feeds part it into, all of it, from
/// first to last: each line stands at its place, each place holds a line,
/// the places follow one another with a line feed between them, and there
/// is no line at any other place.
pub proof fn lemma_lines_are_parted_by_line_feeds(s: Seq<char>)
    ensures
        line_places(s).len() == lines(s).len(),
        forall|i: int|
            0 <= i < lines(s).len() ==> {
                &&& is_line_at(s, (#[trigger] line_places(s)[i]).0, line_places(s)[i].1)
                &&& lines(s)[i] == s.subrange(line_places(s)[i].0, line_places(s)[i].1)
            },
        forall|i: int, j: int|
            0 <= i < j < lines(s).len() ==> (#[trigger] line_places(s)[i]).1 < (
            #[trigger] line_places(s)[j]).0,
        forall|from: int, to: int|
            is_line_at(s, from, to) ==> exists|i: int|
                0 <= i < lines(s).len() && #[trigger] line_places(s)[i] == (from, to),
    decreases s.len(),
{
    if s.len() > 0 {
        let t = s.drop_last();
        let n = s.len() as int;
        let c = s.last();
        let p = line_places(s);
        let q = line_places(t);
        let open = n >= 2 && s[n - 2] != '\n';
        lemma_lines_are_parted_by_line_feeds(t);
        assert forall|k: int| 0 <= k < n - 1 implies t[k] == s[k] by {}
        // a place that reaches the end of `t` is the last one, and `t` ends
        // with no line feed.
        assert forall|i: int| 0 <= i < q.len() && q[i].1 == n - 1 implies i == q.len() - 1
            && open by {
            assert(is_line_at(t, q[i].0, q[i].1));
            assert(t[n - 2] != '\n');
            if i < q.len() - 1 {
                assert(q[i].1 < q[q.len() - 1].0);
                assert(is_line_at(t, q[q.len() - 1].0, q[q.len() - 1].1));
            }
        }
        if open {
            assert(q.len() > 0 && q.last().1 == n - 1);
        }
        assert forall|i: int| 0 <= i < q.len() && (i < q.len() - 1 || !open) implies is_line_at(
            s,
            (#[trigger] q[i]).0,
            q[i].1,
        ) && q[i].1 < n - 1 && lines(t)[i] == s.subrange(q[i].0, q[i].1) by {
            assert(is_line_at(t, q[i].0, q[i].1));
            if i < q.len() - 1 {
                assert(q[i].1 < q[q.len() - 1].0);
                assert(is_line_at(t, q[q.len() - 1].0, q[q.len() - 1].1));
            }
            assert(t.subrange(q[i].0, q[i].1) =~= s.subrange(q[i].0, q[i].1));
        }
        // a line of `s` that ends before the last character is a line of `t`.
        assert forall|from: int, to: int| is_line_at(s, from, to) && to < n - 1 implies exists|
            i: int,
        |
            0 <= i < q.len() && #[trigger] q[i] == (from, to) by {
            assert forall|k: int| from <= k < to implies #[trigger] t[k] != '\n' by {
                assert(s[k] != '\n');
            }
            assert(is_line_at(t, from, to));
        }
        if c == '\n' {
            if open {
                let a0 = q.last().0;
                assert(is_line_at(t, a0, n - 1));
                assert forall|i: int| 0 <= i < p.len() implies is_line_at(
                    s,
                    (#[trigger] p[i]).0,
                    p[i].1,
                ) && lines(s)[i] == s.subrange(p[i].0, p[i].1) by {
                    if i == p.len() - 1 {
                        assert(t.subrange(a0, n - 1) =~= s.subrange(a0, n - 1));
                        assert forall|k: int| a0 <= k < n - 1 implies #[trigger] s[k] != '\n' by {
                            assert(t[k] != '\n');
                        }
                    }
                }
                assert forall|from: int, to: int| is_line_at(s, from, to) implies exists|i: int|
                    0 <= i < lines(s).len() && #[trigger] p[i] == (from, to) by {
                    if to == n - 1 {
                        assert forall|k: int| from <= k < to implies #[trigger] t[k] != '\n' by {
                            assert(s[k] != '\n');
                        }
                        assert(is_line_at(t, from, to));
                    } else if to == n {
                        assert(s[n - 1] != '\n');
                    }
                }
            } else {
                assert forall|i: int| 0 <= i < p.len() implies is_line_at(
                    s,
                    (#[trigger] p[i]).0,
                    p[i].1,
                ) && lines(s)[i] == s.subrange(p[i].0, p[i].1) by {
                    if i == p.len() - 1 {
                        assert(s.subrange(n - 1, n - 1) =~= Seq::<char>::empty());
                    } else {
                        assert(p[i] == q[i]);
                    }
                }
                assert forall|i: int, j: int| 0 <= i < j < p.len() implies (#[trigger] p[i]).1
                    < (#[trigger] p[j]).0 by {
                    assert(p[i] == q[i]);
                    if j < p.len() - 1 {
                        assert(q[i].1 < q[j].0);
                    }
                }
                assert forall|from: int, to: int| is_line_at(s, from, to) implies exists|i: int|
                    0 <= i < lines(s).len() && #[trigger] p[i] == (from, to) by {
                    if to == n - 1 {
                        if from < n - 1 {
                            assert(s[n - 2] != '\n');
                        }
                        assert(p[p.len() - 1] == (from, to));
                    } else if to == n {
                        assert(s[n - 1] != '\n');
                    } else {
                        let i = choose|i: int| 0 <= i < q.len() && #[trigger] q[i] == (from, to);
                        assert(p[i] == (from, to));
                    }
                }
            }
        } else {
            if open {
                let a0 = q.last().0;
                assert(is_line_at(t, a0, n - 1));
                assert forall|i: int| 0 <= i < p.len() implies is_line_at(
                    s,
                    (#[trigger] p[i]).0,
                    p[i].1,
                ) && lines(s)[i] == s.subrange(p[i].0, p[i].1) by {
                    if i < p.len() - 1 {
                        assert(p[i] == q[i]);
                        assert(lines(s)[i] == lines(t)[i]);
                    } else {
                        assert(p[i] == (a0, n));
                        assert(s.subrange(a0, n) =~= t.subrange(a0, n - 1).push(c));
                        assert forall|k: int| a0 <= k < n implies #[trigger] s[k] != '\n' by {
                            if k < n - 1 {
                                assert(t[k] != '\n');
                            }
                        }
                    }
                }
                assert forall|i: int, j: int| 0 <= i < j < p.len() implies (#[trigger] p[i]).1
                    < (#[trigger] p[j]).0 by {
                    assert(p[i] == q[i]);
                    assert(q[i].1 < q[j].0);
                }
                assert forall|from: int, to: int| is_line_at(s, from, to) implies exists|i: int|
                    0 <= i < lines(s).len() && #[trigger] p[i] == (from, to) by {
                    if to == n {
                        assert forall|k: int| from <= k < n - 1 implies #[trigger] t[k] != '\n' by {
                            assert(s[k] != '\n');
                        }
                        if from == n - 1 {
                            assert(s[n - 2] == '\n');
                        }
                        assert(is_line_at(t, from, n - 1));
                        let i = choose|i: int| 0 <= i < q.len() && #[trigger] q[i] == (from, n - 1);
                        assert(i == q.len() - 1);
                        assert(p[p.len() - 1] == (from, to));
                    } else {
                        assert(s[to] == '\n');
                        let i = choose|i: int| 0 <= i < q.len() && #[trigger] q[i] == (from, to);
                        assert(i != q.len() - 1);
                        assert(p[i] == (from, to));
                    }
                }
            } else {
                assert forall|i: int| 0 <= i < p.len() implies is_line_at(
                    s,
                    (#[trigger] p[i]).0,
                    p[i].1,
                ) && lines(s)[i] == s.subrange(p[i].0, p[i].1) by {
                    if i < p.len() - 1 {
                        assert(p[i] == q[i]);
                    } else {
                        assert(s.subrange(n - 1, n) =~= seq![c]);
                    }
                }
                assert forall|i: int, j: int| 0 <= i < j < p.len() implies (#[trigger] p[i]).1
                    < (#[trigger] p[j]).0 by {
                    assert(p[i] == q[i]);
                    if j < p.len() - 1 {
                        assert(q[i].1 < q[j].0);
                    }
                }
                assert forall|from: int, to: int| is_line_at(s, from, to) implies exists|i: int|
                    0 <= i < lines(s).len() && #[trigger] p[i] == (from, to) by {
                    if to == n {
                        if from < n - 1 {
                            assert(s[n - 2] != '\n');
                        }
                        assert(p[p.len() - 1] == (from, to));
                    } else {
                        assert(s[to] == '\n');
                        let i = choose|i: int| 0 <= i < q.len() && #[trigger] q[i] == (from, to);
                        assert(p[i] == (from, to));
                    }
                }
            }
        }
    }
}

/// Whether `spans` gives, in order, the places of `parts` in `s`: each part
/// is what `s` holds from the span's first index up to its second.
pub open spec fn spans_of(spans: Seq<(usize, usize)>, s: Seq<char>, parts: Seq<Seq<char>>) -> bool {
    &&& spans.len() == parts.len()
    &&& forall|i: int|
        0 <= i < spans.len() ==> {
            &&& (#[trigger] spans[i]).0 <= spans[i].1 <= s.len()
            &&& s.subrange(spans[i].0 as int, spans[i].1 as int) == parts[i]
        }
}

/// Whether `c` is white space.
pub fn is_whitespace(c: char) -> (b: bool)
    ensures
        b == is_space(c),
{
    ('\u{0009}' <= c && c <= '\u{000D}') || c == '\u{0020}' || c == '\u{0085}' || c == '\u{00A0}'
        || c == '\u{1680}' || ('\u{2000}' <= c && c <= '\u{200A}') || c == '\u{2028}' || c
        == '\u{2029}' || c == '\u{202F}' || c == '\u{205F}' || c == '\u{3000}'
}

/// The characters of `s`.
pub fn chars_of(s: &str) -> (chars: Vec<char>)
    ensures
        chars@ == s@,
{
    let mut chars: Vec<char> = Vec::new();
    for c in it: s.chars()
        invariant
            it.seq() == s@,
            chars@ == it.seq().take(it.index()),
    {
        chars.push(c);
        assert(it.seq().take(it.index() + 1) =~= it.seq().take(it.index()).push(c));
    }
    assert(chars@ =~= s@);
    chars
}

/// Where the words of `text` are.
pub fn split_words(text: &[char]) -> (spans: Vec<(usize, usize)>)
    ensures
        spans_of(spans@, text@, words(text@)),
{
    let n = text.len();
    let mut spans: Vec<(usize, usize)> = Vec::new();
    let mut start: usize = 0;
    let mut inside = false;
    let mut i: usize = 0;
    while i < n
        invariant
            i <= n,
            n == text@.len(),
            inside ==> start < i,
            inside == (i > 0 && !is_space(text@[i - 1])),
            inside ==> spans_of(
                spans@.push((start, i)),
                text@,
                words(text@.take(i as int)),
            ),
            !inside ==> spans_of(spans@, text@, words(text@.take(i as int))),
        decreases n - i,
    {
        let ghost seen = text@.take(i as int);
        let ghost next = text@.take(i + 1);
        let ghost before = words(seen);
        assert(next.drop_last() =~= seen);
        assert(next.last() == text@[i as int]);
        assert(i > 0 ==> next[next.len() - 2] == text@[i - 1]);
        let c = text[i];
        if is_whitespace(c) {
            if inside {
                spans.push((start, i));
                inside = false;
            }
        } else {
            if inside {
                proof {
                    let grown = spans@.push((start, (i + 1) as usize));
                    let after = words(next);
                    assert(after == before.drop_last().push(before.last().push(c)));
                    assert forall|j: int| 0 <= j < grown.len() implies {
                        &&& (#[trigger] grown[j]).0 <= grown[j].1 <= text@.len()
                        &&& text@.subrange(grown[j].0 as int, grown[j].1 as int) == after[j]
                    } by {
                        let old_spans = spans@.push((start, i));
                        assert(old_spans[j].0 == grown[j].0);
                        if j < spans@.len() {
                            assert(old_spans[j] == grown[j]);
                            assert(after[j] == before[j]);
                        } else {
                            assert(text@.subrange(start as int, i + 1) =~= text@.subrange(
                                start as int,
                                i as int,
                            ).push(c));
                        }
                    }
                }
            } else {
                start = i;
                inside = true;
                proof {
                    let grown = spans@.push((start, (i + 1) as usize));
                    let after = words(next);
                    assert(after == before.push(seq![c]));
                    assert forall|j: int| 0 <= j < grown.len() implies {
                        &&& (#[trigger] grown[j]).0 <= grown[j].1 <= text@.len()
                        &&& text@.subrange(grown[j].0 as int, grown[j].1 as int) == after[j]
                    } by {
                        if j < spans@.len() {
                            assert(spans@[j] == grown[j]);
                        } else {
                            assert(text@.subrange(i as int, i + 1) =~= seq![c]);
                        }
                    }
                }
            }
        }
        i = i + 1;
    }
    assert(text@.take(n as int) =~= text@);
    if inside {
        spans.push((start, n));
    }
    spans
}

} // verus!
