//! Exclusion filter: a set of folder names, loaded from a line-oriented
//! definition text, and a check whether any component of a path matches a
//! member of the set exactly.

use vstd::prelude::*;

use crate::text::{segments, split_on, trim, trim_spec, views_of};

verus! {

/// A set of folder names to skip. The view is the set of the names' views;
/// well-formed values hold each name once.
pub struct ExclusionSet {
    pub names: Vec<String>,
}

impl View for ExclusionSet {
    type V = Set<Seq<char>>;

    open spec fn view(&self) -> Set<Seq<char>> {
        views_of(self.names@).to_set()
    }
}

impl ExclusionSet {
    /// No name occurs twice.
    pub open spec fn wf(&self) -> bool {
        forall|i: int, j: int|
            0 <= i < j < self.names@.len() ==> self.names@[i]@ != self.names@[j]@
    }

    /// The empty exclusion set.
    pub fn new() -> (s: ExclusionSet)
        ensures
            s.wf(),
            s@ == Set::<Seq<char>>::empty(),
    {
        let s = ExclusionSet { names: Vec::new() };
        proof {
            assert(s@ =~= Set::<Seq<char>>::empty());
        }
        s
    }

    /// Whether `name` is a member of the set.
    pub fn contains_name(&self, name: &String) -> (r: bool)
        ensures
            r == self@.contains(name@),
    {
        let mut i: usize = 0;
        while i < self.names.len()
            invariant
                i <= self.names@.len(),
                forall|k: int| 0 <= k < i ==> self.names@[k]@ != name@,
            decreases self.names@.len() - i,
        {
            if self.names[i] == *name {
                proof {
                    assert(views_of(self.names@)[i as int] == name@);
                }
                return true;
            }
            i = i + 1;
        }
        proof {
            if self@.contains(name@) {
                let k = choose|k: int|
                    0 <= k < views_of(self.names@).len() && views_of(self.names@)[k] == name@;
                assert(self.names@[k]@ == name@);
            }
        }
        false
    }

    /// Add `name` to the set; a name already present is not duplicated.
    pub fn insert(&mut self, name: String)
        requires
            old(self).wf(),
        ensures
            final(self).wf(),
            final(self)@ == old(self)@.insert(name@),
    {
        if self.contains_name(&name) {
            proof {
                assert(self@ =~= old(self)@.insert(name@));
            }
        } else {
            proof {
                assert(forall|k: int|
                    0 <= k < self.names@.len() ==> #[trigger] self.names@[k]@ != name@) by {
                    assert(forall|k: int|
                        0 <= k < self.names@.len() ==> views_of(self.names@)[k]
                            == #[trigger] self.names@[k]@);
                }
            }
            self.names.push(name);
            proof {
                let vold = views_of(old(self).names@);
                let vnew = views_of(self.names@);
                assert(vnew =~= vold.push(name@));
                assert forall|x: Seq<char>|
                    vnew.contains(x) <==> (vold.contains(x) || x == name@) by {
                    if vnew.contains(x) {
                        let i = choose|i: int| 0 <= i < vnew.len() && vnew[i] == x;
                        if i < vold.len() {
                            assert(vold[i] == x);
                        }
                    }
                    if vold.contains(x) {
                        let i = choose|i: int| 0 <= i < vold.len() && vold[i] == x;
                        assert(vnew[i] == x);
                    }
                    if x == name@ {
                        assert(vnew[vold.len() as int] == x);
                    }
                }
                assert(self@ =~= old(self)@.insert(name@));
            }
        }
    }
}

/// Whether a trimmed line of the exclusion definition contributes a name:
/// blank lines and comment lines (leading `#`) are discarded.
pub open spec fn keeps_line(t: Seq<char>) -> bool {
    t.len() > 0 && t[0] != '#'
}

/// The names contributed by the given lines: each line trimmed, blank and
/// comment lines discarded, duplicates collapsed.
pub open spec fn exclusions_in(lines: Seq<Seq<char>>) -> Set<Seq<char>>
    decreases lines.len(),
{
    if lines.len() == 0 {
        Set::empty()
    } else {
        let rest = exclusions_in(lines.drop_last());
        let t = trim_spec(lines.last());
        if keeps_line(t) {
            rest.insert(t)
        } else {
            rest
        }
    }
}

/// The exclusion set defined by a whole definition text.
pub open spec fn exclusion_set_of(text: Seq<char>) -> Set<Seq<char>> {
    exclusions_in(segments(text, '\n'))
}

/// Build the exclusion set from the definition text: one folder name per
/// line, surrounding whitespace trimmed, blank lines and lines beginning
/// with `#` ignored, duplicates collapsed.
pub fn load_blacklisted_folders(contents: &str) -> (s: ExclusionSet)
    ensures
        s.wf(),
        s@ == exclusion_set_of(contents@),
{
    let lines = split_on(contents, '\n');
    let mut s = ExclusionSet::new();
    let mut i: usize = 0;
    while i < lines.len()
        invariant
            s.wf(),
            i <= lines@.len(),
            views_of(lines@) == segments(contents@, '\n'),
            s@ == exclusions_in(views_of(lines@).take(i as int)),
        decreases lines@.len() - i,
    {
        proof {
            assert(views_of(lines@).take(i + 1).drop_last() =~= views_of(lines@).take(i as int));
            assert(views_of(lines@).take(i + 1).last() == lines@[i as int]@);
        }
        let t = trim(lines[i].as_str());
        let tlen = t.as_str().unicode_len();
        if tlen > 0 && t.as_str().get_char(0) != '#' {
            s.insert(t);
        }
        i = i + 1;
    }
    proof {
        assert(views_of(lines@).take(lines@.len() as int) =~= views_of(lines@));
    }
    s
}

/// Whether some `/`-separated component of `path` is a member of `names`.
pub open spec fn path_excluded(path: Seq<char>, names: Set<Seq<char>>) -> bool {
    exists|c: Seq<char>| #[trigger] names.contains(c) && segments(path, '/').contains(c)
}

/// Decide whether `path` is excluded: true exactly when one of its
/// components (the non-empty segments between `/` separators) equals a
/// member of `blacklist`. Substrings of a component never match.
pub fn is_blacklisted(path: &str, blacklist: &ExclusionSet) -> (r: bool)
    ensures
        r == path_excluded(path@, blacklist@),
{
    let comps = split_on(path, '/');
    let mut i: usize = 0;
    while i < comps.len()
        invariant
            i <= comps@.len(),
            views_of(comps@) == segments(path@, '/'),
            forall|k: int| 0 <= k < i ==> !blacklist@.contains(#[trigger] comps@[k]@),
        decreases comps@.len() - i,
    {
        if blacklist.contains_name(&comps[i]) {
            proof {
                assert(views_of(comps@)[i as int] == comps@[i as int]@);
                assert(segments(path@, '/').contains(comps@[i as int]@));
            }
            return true;
        }
        i = i + 1;
    }
    proof {
        if path_excluded(path@, blacklist@) {
            let c = choose|c: Seq<char>|
                blacklist@.contains(c) && segments(path@, '/').contains(c);
            let k = choose|k: int|
                0 <= k < segments(path@, '/').len() && segments(path@, '/')[k] == c;
            assert(views_of(comps@)[k] == comps@[k]@);
            assert(false);
        }
    }
    false
}

} // verus!
