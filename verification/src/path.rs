//! Paths of files. A path is text; what it names are the parts between its
//! separators.
use vstd::prelude::*;
use vstd::string::*;

use crate::text::{chars_of, copied, part_of};

verus! {

/// A path, as it is written. Two paths that are written differently may name the
/// same file: what counts is the root and the parts.
#[derive(Debug)]
pub struct FilePath {
    text: String,
}

/// What a [`FilePath`] holds.
#[verifier::ext_equal]
pub ghost struct PathView {
    pub text: Seq<char>,
}

/// What a path names: whether it starts at the root, and its parts in order.
#[verifier::ext_equal]
pub ghost struct PathKey {
    pub root: bool,
    pub parts: Seq<Seq<char>>,
}

impl View for FilePath {
    type V = PathView;

    closed spec fn view(&self) -> PathView {
        PathView { text: self.text@ }
    }
}

impl DeepView for FilePath {
    type V = PathView;

    open spec fn deep_view(&self) -> PathView {
        self@
    }
}

/// Where the part ends that goes on at a position: at the next slash or at the end
/// of the text.
pub open spec fn part_end(s: Seq<char>, i: int) -> int
    decreases s.len() - i,
{
    if 0 <= i < s.len() && s[i] != '/' {
        part_end(s, i + 1)
    } else {
        i
    }
}

/// A part ends no sooner than it goes on, and inside the text.
pub proof fn lemma_part_end(s: Seq<char>, i: int)
    requires
        0 <= i <= s.len(),
    ensures
        i <= part_end(s, i) <= s.len(),
        i < s.len() && s[i] != '/' ==> i < part_end(s, i),
    decreases s.len() - i,
{
    if i < s.len() && s[i] != '/' {
        lemma_part_end(s, i + 1);
    }
}

/// Where the parts of a path start and end, from a position on. A part is what
/// stands between slashes; empty ones do not count, nor does `.` but at the start
/// of the path.
pub open spec fn places_from(s: Seq<char>, i: int) -> Seq<(int, int)>
    decreases s.len() - i,
{
    if !(0 <= i < s.len()) {
        Seq::empty()
    } else if s[i] == '/' {
        places_from(s, i + 1)
    } else {
        let end = part_end(s, i);
        proof {
            lemma_part_end(s, i);
        }
        if i > 0 && end == i + 1 && s[i] == '.' {
            places_from(s, end)
        } else {
            seq![(i, end)] + places_from(s, end)
        }
    }
}

/// The parts lie in the text, one behind the other.
pub proof fn lemma_places(s: Seq<char>, i: int, all: Seq<(int, int)>)
    requires
        0 <= i <= s.len(),
        all == places_from(s, i),
    ensures
        forall|k: int|
            0 <= k < all.len() ==> i <= (#[trigger] all[k]).0 && all[k].0 < all[k].1 <= s.len(),
        forall|j: int, k: int|
            0 <= j < k < all.len() ==> (#[trigger] all[j]).1 <= (#[trigger] all[k]).0,
    decreases s.len() - i,
{
    if i < s.len() {
        lemma_part_end(s, i);
        if s[i] == '/' {
            lemma_places(s, i + 1, all);
        } else {
            let end = part_end(s, i);
            let rest = places_from(s, end);
            lemma_places(s, end, rest);
            if !(i > 0 && end == i + 1 && s[i] == '.') {
                assert(all == seq![(i, end)] + rest);
                assert forall|k: int| 0 <= k < all.len() implies i <= (#[trigger] all[k]).0
                    && all[k].0 < all[k].1 <= s.len() by {
                    if k > 0 {
                        assert(all[k] == rest[k - 1]);
                    }
                }
                assert forall|j: int, k: int| 0 <= j < k < all.len() implies (
                #[trigger] all[j]).1 <= (#[trigger] all[k]).0 by {
                    assert(all[k] == rest[k - 1]);
                    if j > 0 {
                        assert(all[j] == rest[j - 1]);
                    }
                }
            }
        }
    }
}

impl PathView {
    /// Where the parts of the path start and end.
    pub open spec fn places(self) -> Seq<(int, int)> {
        places_from(self.text, 0)
    }

    /// Whether the path starts at the root.
    pub open spec fn rooted(self) -> bool {
        self.text.len() > 0 && self.text[0] == '/'
    }

    /// What the path names.
    pub open spec fn key(self) -> PathKey {
        PathKey {
            root: self.rooted(),
            parts: self.places().map_values(|p: (int, int)| self.text.subrange(p.0, p.1)),
        }
    }

    /// `other` behind `self`, with a slash between them unless `self` is empty or
    /// ends with one; `other` alone where that starts at the root.
    pub open spec fn join(self, other: PathView) -> PathView {
        if other.rooted() {
            other
        } else if self.text.len() == 0 || self.text.last() == '/' {
            PathView { text: self.text + other.text }
        } else {
            PathView { text: self.text.push('/') + other.text }
        }
    }

    /// Whether the parts of `prefix`, the root among them, are the first of
    /// `self`.
    pub open spec fn starts_with(self, prefix: PathView) -> bool {
        if prefix.rooted() == self.rooted() {
            prefix.key().parts.is_prefix_of(self.key().parts)
        } else {
            prefix.text.len() == 0
        }
    }

    /// What is left of a path behind a prefix of it: the text from the first part
    /// behind the prefix to the end of the last part. An empty prefix takes nothing
    /// off the start.
    pub open spec fn strip_prefix(self, prefix: PathView) -> Option<PathView> {
        let places = self.places();
        let n = prefix.places().len();
        if !self.starts_with(prefix) {
            None
        } else if prefix.text.len() == 0 && places.len() == 0 {
            Some(PathView { text: self.text.take(if self.rooted() { 1 } else { 0 }) })
        } else if prefix.text.len() == 0 {
            Some(PathView { text: self.text.take(places.last().1) })
        } else if n == places.len() {
            Some(PathView { text: Seq::empty() })
        } else {
            Some(PathView { text: self.text.subrange(places[n as int].0, places.last().1) })
        }
    }
}

/// The characters of a path and the places of its parts.
struct Layout {
    chars: Vec<char>,
    places: Vec<(usize, usize)>,
}

impl Layout {
    /// Whether this is the layout of a path.
    spec fn of(self, path: PathView) -> bool {
        &&& self.chars@ == path.text
        &&& self.places@.len() == path.places().len()
        &&& forall|k: int|
            0 <= k < self.places@.len() ==> (#[trigger] self.places@[k]).0 == path.places()[k].0
                && self.places@[k].1 == path.places()[k].1
        &&& forall|k: int|
            0 <= k < self.places@.len() ==> (#[trigger] self.places@[k]).0 < self.places@[k].1
                <= self.chars@.len()
        &&& forall|j: int, k: int|
            0 <= j < k < self.places@.len() ==> (#[trigger] self.places@[j]).1 <= (
            #[trigger] self.places@[k]).0
    }

    fn rooted(&self) -> (b: bool)
        ensures
            b == (self.chars@.len() > 0 && self.chars@[0] == '/'),
    {
        self.chars.len() > 0 && self.chars[0] == '/'
    }

    /// Whether the parts of another path are the first of this one, the root left
    /// aside.
    fn parts_start_with(
        &self,
        other: &Layout,
        Ghost(path): Ghost<PathView>,
        Ghost(prefix): Ghost<PathView>,
    ) -> (b: bool)
        requires
            self.of(path),
            other.of(prefix),
        ensures
            b == prefix.key().parts.is_prefix_of(path.key().parts),
    {
        let ghost ours = path.key().parts;
        let ghost theirs = prefix.key().parts;
        if other.places.len() > self.places.len() {
            return false;
        }
        for i in 0..other.places.len()
            invariant
                self.of(path),
                other.of(prefix),
                ours == path.key().parts,
                theirs == prefix.key().parts,
                theirs.len() == other.places@.len(),
                theirs.len() <= ours.len(),
                forall|j: int| 0 <= j < i ==> theirs[j] == ours[j],
        {
            let a = part_of(&self.chars, self.places[i].0, self.places[i].1);
            let b = part_of(&other.chars, other.places[i].0, other.places[i].1);
            assert(a@ == ours[i as int]);
            assert(b@ == theirs[i as int]);
            if a != b {
                assert(theirs[i as int] != ours.subrange(0, theirs.len() as int)[i as int]);
                return false;
            }
        }
        assert(theirs =~= ours.subrange(0, theirs.len() as int));
        true
    }
}

impl Clone for FilePath {
    fn clone(&self) -> (p: FilePath)
        ensures
            p@ == self@,
    {
        FilePath { text: self.text.clone() }
    }
}

impl PartialEq for FilePath {
    fn eq(&self, other: &FilePath) -> (b: bool) {
        self.same(other)
    }
}

impl vstd::std_specs::cmp::PartialEqSpecImpl for FilePath {
    open spec fn obeys_eq_spec() -> bool {
        true
    }

    open spec fn eq_spec(&self, other: &FilePath) -> bool {
        self@.key() == other@.key()
    }
}

impl Eq for FilePath {

}

impl std::hash::Hash for FilePath {
    fn hash<H: std::hash::Hasher>(&self, state: &mut H) {
        let layout = self.layout();
        if layout.rooted() {
            hash_text(&copied("/"), state);
        }
        for i in 0..layout.places.len()
            invariant
                layout.of(self@),
        {
            hash_text(&part_of(&layout.chars, layout.places[i].0, layout.places[i].1), state);
        }
    }
}

/// `std::hash::Hash::hash` of a string: hands the text on to a hasher. Nothing is
/// claimed of what the hasher makes of it.
#[verifier::external_body]
fn hash_text<H: std::hash::Hasher>(text: &String, state: &mut H) {
    std::hash::Hash::hash(text, state)
}

impl FilePath {
    /// The path that is written so.
    pub fn new(text: String) -> (p: FilePath)
        ensures
            p@ == (PathView { text: text@ }),
    {
        FilePath { text }
    }

    /// The path that is written so.
    pub fn named(text: &str) -> (p: FilePath)
        ensures
            p@ == (PathView { text: text@ }),
    {
        FilePath { text: copied(text) }
    }

    /// The path as it is written.
    pub fn as_str(&self) -> (s: &str)
        ensures
            s@ == self@.text,
    {
        self.text.as_str()
    }

    /// Finds the parts.
    fn layout(&self) -> (l: Layout)
        ensures
            l.of(self@),
    {
        let chars = chars_of(self.text.as_str());
        let ghost s = self@.text;
        let mut places: Vec<(usize, usize)> = Vec::new();
        let ghost mut found: Seq<(int, int)> = Seq::empty();
        let mut i: usize = 0;
        assert(found + places_from(s, 0) =~= places_from(s, 0));
        while i < chars.len()
            invariant
                chars@ == s,
                s == self@.text,
                i <= s.len(),
                found + places_from(s, i as int) == places_from(s, 0),
                places@.len() == found.len(),
                forall|k: int|
                    0 <= k < places@.len() ==> (#[trigger] places@[k]).0 == found[k].0
                        && places@[k].1 == found[k].1,
            decreases s.len() - i,
        {
            if chars[i] == '/' {
                i += 1;
            } else {
                let start: usize = i;
                proof {
                    lemma_part_end(s, start as int);
                }
                while i < chars.len() && chars[i] != '/'
                    invariant
                        chars@ == s,
                        start <= i <= s.len(),
                        part_end(s, start as int) == part_end(s, i as int),
                    decreases s.len() - i,
                {
                    i += 1;
                }
                if !(start > 0 && i == start + 1 && chars[start] == '.') {
                    places.push((start, i));
                    proof {
                        let rest = places_from(s, i as int);
                        assert(found + (seq![(start as int, i as int)] + rest) =~= found.push(
                            (start as int, i as int),
                        ) + rest);
                        found = found.push((start as int, i as int));
                    }
                }
            }
        }
        proof {
            assert(places_from(s, i as int) =~= Seq::empty());
            assert(found =~= places_from(s, 0));
            lemma_places(s, 0, found);
            assert forall|j: int, k: int| 0 <= j < k < places@.len() implies (
            #[trigger] places@[j]).1 <= (#[trigger] places@[k]).0 by {
                assert(found[j].1 <= found[k].0);
            }
            assert forall|k: int| 0 <= k < places@.len() implies (#[trigger] places@[k]).0
                < places@[k].1 <= chars@.len() by {
                assert(found[k].0 < found[k].1);
            }
        }
        Layout { chars, places }
    }

    /// The number of parts.
    pub fn part_count(&self) -> (n: usize)
        ensures
            n == self@.key().parts.len(),
    {
        self.layout().places.len()
    }

    /// Whether two paths name the same.
    pub fn same(&self, other: &FilePath) -> (b: bool)
        ensures
            b == (self@.key() == other@.key()),
    {
        let ours = self.layout();
        let theirs = other.layout();
        let equal = ours.rooted() == theirs.rooted() && ours.places.len() == theirs.places.len()
            && ours.parts_start_with(&theirs, Ghost(self@), Ghost(other@));
        proof {
            let a = self@.key().parts;
            let b = other@.key().parts;
            if equal {
                assert(a =~= b);
            } else if self@.key() == other@.key() {
                assert(a =~= a.subrange(0, a.len() as int));
            }
        }
        equal
    }

    /// Puts a path behind another, or takes it alone where it starts at the root.
    pub fn join(&self, other: &FilePath) -> (p: FilePath)
        ensures
            p@ == self@.join(other@),
    {
        if other.layout().rooted() {
            return other.clone();
        }
        let chars = chars_of(self.text.as_str());
        let mut text = self.text.clone();
        if chars.len() > 0 && chars[chars.len() - 1] != '/' {
            text.push('/');
        }
        text.append(other.text.as_str());
        FilePath { text }
    }

    /// Takes a prefix off a path. `None` where it is no prefix, part by part.
    pub fn strip_prefix(&self, prefix: &FilePath) -> (r: Option<FilePath>)
        ensures
            r.deep_view() == self@.strip_prefix(prefix@),
    {
        let ours = self.layout();
        let theirs = prefix.layout();
        let count: usize = ours.places.len();
        let n: usize = theirs.places.len();
        if theirs.chars.len() == 0 {
            assert(prefix@.places() =~= Seq::empty());
            assert(prefix@.key().parts =~= self@.key().parts.subrange(0, 0));
            let end: usize = if count > 0 {
                ours.places[count - 1].1
            } else if ours.rooted() {
                1
            } else {
                0
            };
            assert(self@.text.take(end as int) =~= self@.text.subrange(0, end as int));
            return Some(FilePath { text: part_of(&ours.chars, 0, end) });
        }
        if ours.rooted() != theirs.rooted() || !ours.parts_start_with(
            &theirs,
            Ghost(self@),
            Ghost(prefix@),
        ) {
            return None;
        }
        if n == count {
            let rest = FilePath { text: String::new() };
            assert(rest@.text =~= Seq::empty());
            return Some(rest);
        }
        assert(n < count);
        let (start, end): (usize, usize) = (ours.places[n].0, ours.places[count - 1].1);
        assert(start <= end);
        Some(FilePath { text: part_of(&ours.chars, start, end) })
    }
}

} // verus!
