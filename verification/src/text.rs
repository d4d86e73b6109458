//! Character-level text utilities: splitting a string into the non-empty
//! segments between a separator, and trimming surrounding whitespace.
//! Both are specified over `Seq<char>` and used by the exclusion filter.

use vstd::prelude::*;

verus! {

/// The whitespace characters that trimming removes.
pub open spec fn is_space(c: char) -> bool {
    c == ' ' || c == '\t' || c == '\n' || c == '\r' || c == '\u{b}' || c == '\u{c}'
}

/// Executable check for `is_space`.
pub fn is_space_char(c: char) -> (r: bool)
    ensures
        r == is_space(c),
{
    c == ' ' || c == '\t' || c == '\n' || c == '\r' || c == '\u{b}' || c == '\u{c}'
}

/// State of a left-to-right split of `s` at `sep`: the segments completed so
/// far, and the partial segment after the last separator. Empty segments
/// (between adjacent separators, or at the ends) are dropped.
pub open spec fn split_state(s: Seq<char>, sep: char) -> (Seq<Seq<char>>, Seq<char>)
    decreases s.len(),
{
    if s.len() == 0 {
        (Seq::empty(), Seq::empty())
    } else {
        let prev = split_state(s.drop_last(), sep);
        if s.last() == sep {
            if prev.1.len() == 0 {
                (prev.0, Seq::empty())
            } else {
                (prev.0.push(prev.1), Seq::empty())
            }
        } else {
            (prev.0, prev.1.push(s.last()))
        }
    }
}

/// The non-empty segments of `s` delimited by `sep`.
pub open spec fn segments(s: Seq<char>, sep: char) -> Seq<Seq<char>> {
    let st = split_state(s, sep);
    if st.1.len() == 0 {
        st.0
    } else {
        st.0.push(st.1)
    }
}

/// The views of a sequence of strings.
pub open spec fn views_of(parts: Seq<String>) -> Seq<Seq<char>> {
    parts.map_values(|p: String| p@)
}

/// Split `s` into the non-empty segments between occurrences of `sep`.
pub fn split_on(s: &str, sep: char) -> (parts: Vec<String>)
    ensures
        views_of(parts@) == segments(s@, sep),
{
    let n = s.unicode_len();
    let mut parts: Vec<String> = Vec::new();
    let mut seg_start: usize = 0;
    let mut i: usize = 0;
    while i < n
        invariant
            n == s@.len(),
            seg_start <= i <= n,
            views_of(parts@) == split_state(s@.take(i as int), sep).0,
            split_state(s@.take(i as int), sep).1 == s@.subrange(
                seg_start as int,
                i as int,
            ),
        decreases n - i,
    {
        let c = s.get_char(i);
        proof {
            assert(s@.take(i + 1).drop_last() =~= s@.take(i as int));
            assert(s@.take(i + 1).last() == s@[i as int]);
        }
        if c == sep {
            if seg_start < i {
                let piece = s.substring_char(seg_start, i);
                parts.push(String::from_str(piece));
                proof {
                    assert(views_of(parts@) =~= split_state(s@.take(i + 1), sep).0);
                }
            }
            seg_start = i + 1;
            proof {
                assert(split_state(s@.take(i + 1), sep).1 =~= s@.subrange(
                    seg_start as int,
                    i + 1,
                ));
            }
        } else {
            proof {
                assert(split_state(s@.take(i + 1), sep).1 =~= s@.subrange(
                    seg_start as int,
                    i + 1,
                ));
            }
        }
        i = i + 1;
    }
    proof {
        assert(s@.take(n as int) =~= s@);
    }
    if seg_start < n {
        let piece = s.substring_char(seg_start, n);
        parts.push(String::from_str(piece));
        proof {
            assert(views_of(parts@) =~= segments(s@, sep));
        }
    }
    parts
}

/// The segments really are the components between separators: every segment
/// is non-empty and no segment contains the separator, so a match against a
/// segment can never be a match against a mere substring of a component.
pub proof fn lemma_segments_are_components(s: Seq<char>, sep: char)
    ensures
        forall|i: int|
            0 <= i < segments(s, sep).len() ==> (#[trigger] segments(s, sep)[i]).len() > 0
                && !segments(s, sep)[i].contains(sep),
    decreases s.len(),
{
    lemma_split_state_components(s, sep);
}

proof fn lemma_split_state_components(s: Seq<char>, sep: char)
    ensures
        forall|i: int|
            0 <= i < split_state(s, sep).0.len() ==> (#[trigger] split_state(s, sep).0[i]).len()
                > 0 && !split_state(s, sep).0[i].contains(sep),
        !split_state(s, sep).1.contains(sep),
    decreases s.len(),
{
    if s.len() > 0 {
        lemma_split_state_components(s.drop_last(), sep);
        let prev = split_state(s.drop_last(), sep);
        if s.last() == sep {
            if prev.1.len() > 0 {
                assert(forall|i: int|
                    0 <= i < prev.0.len() ==> prev.0.push(prev.1)[i] == #[trigger] prev.0[i]);
                assert(prev.0.push(prev.1).last() == prev.1);
            }
        } else {
            assert(forall|j: int|
                0 <= j < prev.1.len() ==> prev.1.push(s.last())[j] == #[trigger] prev.1[j]);
        }
    }
}

/// `s` with leading whitespace removed.
pub open spec fn trim_start_spec(s: Seq<char>) -> Seq<char>
    decreases s.len(),
{
    if s.len() > 0 && is_space(s[0]) {
        trim_start_spec(s.drop_first())
    } else {
        s
    }
}

/// `s` with trailing whitespace removed.
pub open spec fn trim_end_spec(s: Seq<char>) -> Seq<char>
    decreases s.len(),
{
    if s.len() > 0 && is_space(s.last()) {
        trim_end_spec(s.drop_last())
    } else {
        s
    }
}

/// `s` with surrounding whitespace removed.
pub open spec fn trim_spec(s: Seq<char>) -> Seq<char> {
    trim_end_spec(trim_start_spec(s))
}

/// Dropping a prefix of whitespace does not change the trimmed-start value.
proof fn lemma_trim_start_skip(s: Seq<char>, j: int)
    requires
        0 <= j <= s.len(),
        forall|k: int| 0 <= k < j ==> is_space(s[k]),
    ensures
        trim_start_spec(s) == trim_start_spec(s.skip(j)),
    decreases j,
{
    if j == 0 {
        assert(s.skip(0) =~= s);
    } else {
        assert(is_space(s[0]));
        assert(s.drop_first() =~= s.skip(1));
        lemma_trim_start_skip(s.skip(1), j - 1);
        assert(s.skip(1).skip(j - 1) =~= s.skip(j));
    }
}

/// Dropping a suffix of whitespace does not change the trimmed-end value.
proof fn lemma_trim_end_take(s: Seq<char>, j: int)
    requires
        0 <= j <= s.len(),
        forall|k: int| j <= k < s.len() ==> is_space(s[k]),
    ensures
        trim_end_spec(s) == trim_end_spec(s.take(j)),
    decreases s.len() - j,
{
    if j == s.len() {
        assert(s.take(j) =~= s);
    } else {
        lemma_trim_end_take(s, j + 1);
        let t = s.take(j + 1);
        assert(is_space(t.last()));
        assert(t.drop_last() =~= s.take(j));
    }
}

/// Remove leading and trailing whitespace from `s`.
pub fn trim(s: &str) -> (r: String)
    ensures
        r@ == trim_spec(s@),
{
    let n = s.unicode_len();
    let mut start: usize = 0;
    while start < n && is_space_char(s.get_char(start))
        invariant
            n == s@.len(),
            start <= n,
            forall|k: int| 0 <= k < start ==> is_space(s@[k]),
        decreases n - start,
    {
        start = start + 1;
    }
    proof {
        lemma_trim_start_skip(s@, start as int);
        if start < n {
            assert(s@.skip(start as int)[0] == s@[start as int]);
        }
        assert(trim_start_spec(s@) == s@.skip(start as int));
    }
    let mut end: usize = n;
    while end > start && is_space_char(s.get_char(end - 1))
        invariant
            n == s@.len(),
            start <= end <= n,
            forall|k: int| end <= k < n ==> is_space(s@[k]),
        decreases end,
    {
        end = end - 1;
    }
    proof {
        let t = s@.skip(start as int);
        let j = end - start;
        assert(forall|k: int| j <= k < t.len() ==> is_space(t[k]));
        lemma_trim_end_take(t, j);
        if end > start {
            assert(t.take(j).last() == s@[end - 1]);
        }
        assert(trim_end_spec(t) == t.take(j));
        assert(t.take(j) =~= s@.subrange(start as int, end as int));
    }
    String::from_str(s.substring_char(start, end))
}

} // verus!
