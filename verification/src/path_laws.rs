//! How paths are taken apart and put together, and which files of a directory are read.
use vstd::prelude::*;

use crate::loader::{gives, gives_each, walked, CargoAnalysisLoader, Target};
use crate::path::{lemma_part_end, lemma_places, part_end, places_from, FilePath, PathView};
use crate::reading::{blacklisted, recorded, to_read, wanted};
use crate::span::SpanView;

verus! {

/// The path that is written so.
pub open spec fn written(text: Seq<char>) -> PathView {
    PathView { text }
}

/// The texts of the parts from a position on.
spec fn texts_from(s: Seq<char>, i: int) -> Seq<Seq<char>> {
    places_from(s, i).map_values(|p: (int, int)| s.subrange(p.0, p.1))
}

proof fn lemma_end_shifted(s: Seq<char>, t: Seq<char>, off: int, i: int)
    requires
        0 <= off,
        0 <= i <= t.len(),
        s.len() == off + t.len(),
        forall|j: int| 0 <= j < t.len() ==> s[off + j] == #[trigger] t[j],
    ensures
        part_end(s, off + i) == off + part_end(t, i),
    decreases t.len() - i,
{
    if i < t.len() {
        assert(s[off + i] == t[i]);
        if t[i] != '/' {
            lemma_end_shifted(s, t, off, i + 1);
        }
    }
}

/// The parts of the end of a text are those of the text from there on. At its very start
/// a `.` makes a difference.
proof fn lemma_texts_shifted(s: Seq<char>, t: Seq<char>, off: int, i: int)
    requires
        0 <= off,
        0 <= i <= t.len(),
        s.len() == off + t.len(),
        forall|j: int| 0 <= j < t.len() ==> s[off + j] == #[trigger] t[j],
        i > 0 || off == 0 || t.len() == 0 || t[0] == '/' || !(part_end(t, 0) == 1 && t[0] == '.'),
    ensures
        texts_from(s, off + i) == texts_from(t, i),
    decreases t.len() - i,
{
    if i < t.len() {
        assert(s[off + i] == t[i]);
        if t[i] == '/' {
            lemma_texts_shifted(s, t, off, i + 1);
        } else {
            let end = part_end(t, i);
            lemma_part_end(t, i);
            lemma_end_shifted(s, t, off, i);
            lemma_texts_shifted(s, t, off, end);
            assert(s.subrange(off + i, off + end) =~= t.subrange(i, end));
            let dropped = i > 0 && end == i + 1 && t[i] == '.';
            if dropped {
                assert(texts_from(s, off + i) == texts_from(s, off + end));
            } else {
                assert(texts_from(s, off + i) =~= seq![s.subrange(off + i, off + end)] + texts_from(
                    s,
                    off + end,
                ));
                assert(texts_from(t, i) =~= seq![t.subrange(i, end)] + texts_from(t, end));
            }
        }
    } else {
        assert(texts_from(s, off + i) =~= Seq::empty());
        assert(texts_from(t, i) =~= Seq::empty());
    }
}

proof fn lemma_end_in_front(s: Seq<char>, a: Seq<char>, i: int)
    requires
        0 <= i <= a.len() <= s.len(),
        forall|j: int| 0 <= j < a.len() ==> s[j] == #[trigger] a[j],
        s.len() > a.len() ==> s[a.len() as int] == '/',
    ensures
        part_end(s, i) == part_end(a, i),
    decreases a.len() - i,
{
    if i < a.len() {
        assert(s[i] == a[i]);
        if a[i] != '/' {
            lemma_end_in_front(s, a, i + 1);
        }
    }
}

/// A slash ends what is before it: the parts are those of the text before it and then
/// those behind it.
proof fn lemma_texts_in_front(s: Seq<char>, a: Seq<char>, i: int)
    requires
        0 <= i <= a.len() <= s.len(),
        forall|j: int| 0 <= j < a.len() ==> s[j] == #[trigger] a[j],
        s.len() > a.len() ==> s[a.len() as int] == '/',
    ensures
        texts_from(s, i) == texts_from(a, i) + texts_from(s, a.len() as int),
    decreases a.len() - i,
{
    let behind = texts_from(s, a.len() as int);
    if i < a.len() {
        assert(s[i] == a[i]);
        if a[i] == '/' {
            lemma_texts_in_front(s, a, i + 1);
        } else {
            let end = part_end(a, i);
            lemma_part_end(a, i);
            lemma_end_in_front(s, a, i);
            lemma_texts_in_front(s, a, end);
            assert(s.subrange(i, end) =~= a.subrange(i, end));
            if i > 0 && end == i + 1 && a[i] == '.' {
                assert(texts_from(s, i) == texts_from(s, end));
            } else {
                assert(texts_from(s, i) =~= seq![s.subrange(i, end)] + texts_from(s, end));
                assert(texts_from(a, i) =~= seq![a.subrange(i, end)] + texts_from(a, end));
                assert(texts_from(s, i) =~= texts_from(a, i) + behind);
            }
        }
    } else {
        assert(texts_from(a, i) =~= Seq::empty());
        assert(texts_from(s, i) =~= texts_from(a, i) + behind);
    }
}

/// Text without slashes ends nowhere but at its end.
proof fn lemma_end_without_slash(s: Seq<char>, i: int)
    requires
        0 <= i <= s.len(),
        forall|j: int| i <= j < s.len() ==> #[trigger] s[j] != '/',
    ensures
        part_end(s, i) == s.len(),
    decreases s.len() - i,
{
    if i < s.len() {
        lemma_end_without_slash(s, i + 1);
    }
}

/// A path starts at the root exactly where its text starts with a slash.
pub proof fn law_rooted(path: PathView)
    ensures
        path.key().root <==> path.text.len() > 0 && path.text[0] == '/',
        path.rooted() <==> path.key().root,
{
}

/// Text without a slash is one part, itself; behind the root `.` and nothing are none.
pub proof fn law_one_part(s: Seq<char>)
    requires
        !s.contains('/'),
    ensures
        s.len() > 0 ==> written(s).key().parts == seq![s],
        s.len() == 0 ==> written(s).key().parts == Seq::<Seq<char>>::empty(),
        s.len() == 0 || s == seq!['.'] ==> written(seq!['/'] + s).key().parts == Seq::<
            Seq<char>,
        >::empty(),
        s.len() > 0 && s != seq!['.'] ==> written(seq!['/'] + s).key().parts == seq![s],
{
    let t = seq!['/'] + s;
    assert forall|j: int| 0 <= j < s.len() implies #[trigger] s[j] != '/' by {
        assert(s.contains(s[j]));
    }
    assert forall|j: int| 1 <= j < t.len() implies #[trigger] t[j] != '/' by {
        assert(t[j] == s[j - 1]);
    }
    assert(places_from(t, 0) == places_from(t, 1));
    if s.len() > 0 {
        lemma_end_without_slash(s, 0);
        lemma_end_without_slash(t, 1);
        assert(places_from(s, s.len() as int) =~= Seq::empty());
        assert(places_from(t, t.len() as int) =~= Seq::empty());
        assert(places_from(s, 0) =~= seq![(0int, s.len() as int)]);
        assert(s.subrange(0, s.len() as int) =~= s);
        assert(written(s).key().parts =~= seq![s]);
        if s == seq!['.'] {
            assert(written(t).key().parts =~= Seq::empty());
        } else {
            if s.len() == 1 {
                assert(s[0] != '.') by {
                    if s[0] == '.' {
                        assert(s =~= seq!['.']);
                    }
                }
            }
            assert(t[1] == s[0]);
            assert(places_from(t, 1) =~= seq![(1int, t.len() as int)]);
            assert(t.subrange(1, t.len() as int) =~= s);
            assert(written(t).key().parts =~= seq![s]);
        }
    } else {
        assert(places_from(t, 1) =~= Seq::empty());
        assert(written(s).key().parts =~= Seq::empty());
        assert(written(t).key().parts =~= Seq::empty());
    }
}

/// A slash behind something parts a path in two: the parts are those before it and then
/// those that would be behind the root.
pub proof fn law_parts_around_a_slash(a: Seq<char>, b: Seq<char>)
    requires
        a.len() > 0,
    ensures
        written(a.push('/') + b).key().parts == written(a).key().parts + written(
            seq!['/'] + b,
        ).key().parts,
{
    let s = a.push('/') + b;
    let t = seq!['/'] + b;
    assert(s[a.len() as int] == '/');
    lemma_texts_in_front(s, a, 0);
    assert forall|j: int| 0 <= j < t.len() implies s[a.len() + j] == #[trigger] t[j] by {}
    lemma_texts_shifted(s, t, a.len() as int, 0);
}

/// Putting a path behind another: one from the root stands alone. Else the parts are
/// those of the first and then those that would be behind the root; nothing but a slash
/// comes between the texts, and only where it is missing.
pub proof fn law_join(a: PathView, b: PathView)
    ensures
        b.text.len() > 0 && b.text[0] == '/' ==> a.join(b) == b,
        !(b.text.len() > 0 && b.text[0] == '/') && a.text.len() > 0 ==> {
            &&& a.join(b).key().root == a.key().root
            &&& a.join(b).key().parts == a.key().parts + written(seq!['/'] + b.text).key().parts
            &&& a.text.last() == '/' ==> a.join(b).text == a.text + b.text
            &&& a.text.last() != '/' ==> a.join(b).text == a.text + seq!['/'] + b.text
        },
        !(b.text.len() > 0 && b.text[0] == '/') && a.text.len() == 0 ==> a.join(b).text == b.text,
{
    if !(b.text.len() > 0 && b.text[0] == '/') {
        if a.text.len() == 0 {
            assert(a.join(b).text =~= b.text);
        } else if a.text.last() == '/' {
            let front = a.text.drop_last();
            assert(a.text =~= front.push('/'));
            assert(a.join(b).text =~= front.push('/') + b.text);
            if front.len() > 0 {
                law_parts_around_a_slash(front, b.text);
                law_parts_around_a_slash(front, Seq::empty());
                assert(front.push('/') + Seq::<char>::empty() =~= a.text);
                law_one_part(Seq::empty());
                assert(seq!['/'] + Seq::<char>::empty() =~= seq!['/']);
                assert(a.key().parts =~= written(front).key().parts);
            } else {
                assert(a.text =~= seq!['/'] + Seq::<char>::empty());
                law_one_part(Seq::empty());
                assert(a.join(b).text =~= seq!['/'] + b.text);
                assert(a.key().parts + written(seq!['/'] + b.text).key().parts =~= written(
                    seq!['/'] + b.text,
                ).key().parts);
            }
        } else {
            law_parts_around_a_slash(a.text, b.text);
            assert(a.text.push('/') + b.text =~= a.text + seq!['/'] + b.text);
        }
    }
}

/// The parts from the start of a part on are that part and those behind it.
proof fn lemma_texts_from_place(s: Seq<char>, i: int, n: int)
    requires
        0 <= i <= s.len(),
        0 <= n < places_from(s, i).len(),
    ensures
        places_from(s, places_from(s, i)[n].0) == places_from(s, i).skip(n),
    decreases s.len() - i,
{
    let all = places_from(s, i);
    if i < s.len() {
        lemma_part_end(s, i);
        let end = part_end(s, i);
        if s[i] == '/' {
            lemma_texts_from_place(s, i + 1, n);
        } else if i > 0 && end == i + 1 && s[i] == '.' {
            lemma_texts_from_place(s, end, n);
        } else {
            let rest = places_from(s, end);
            assert(all == seq![(i, end)] + rest);
            if n == 0 {
                assert(all.skip(0) =~= all);
            } else {
                lemma_texts_from_place(s, end, n - 1);
                assert(all[n] == rest[n - 1]);
                assert(all.skip(n) =~= rest.skip(n - 1));
            }
        }
    }
}

/// Behind the last part there is none.
proof fn lemma_none_behind_last(s: Seq<char>, i: int)
    requires
        0 <= i <= s.len(),
        places_from(s, i).len() > 0,
    ensures
        places_from(s, places_from(s, i).last().1).len() == 0,
        s.len() > places_from(s, i).last().1 ==> s[places_from(s, i).last().1] == '/',
    decreases s.len() - i,
{
    let all = places_from(s, i);
    if i < s.len() {
        lemma_part_end(s, i);
        let end = part_end(s, i);
        if s[i] == '/' {
            lemma_none_behind_last(s, i + 1);
        } else if i > 0 && end == i + 1 && s[i] == '.' {
            lemma_none_behind_last(s, end);
        } else {
            let rest = places_from(s, end);
            assert(all == seq![(i, end)] + rest);
            lemma_end_at_slash(s, i);
            if rest.len() > 0 {
                lemma_none_behind_last(s, end);
                assert(all.last() == rest.last());
            } else {
                assert(all.last() == (i, end));
            }
        }
    }
}

proof fn lemma_end_at_slash(s: Seq<char>, i: int)
    requires
        0 <= i <= s.len(),
    ensures
        part_end(s, i) < s.len() ==> s[part_end(s, i)] == '/',
    decreases s.len() - i,
{
    lemma_part_end(s, i);
    if i < s.len() && s[i] != '/' {
        lemma_end_at_slash(s, i + 1);
    }
}

/// A part that starts behind the start of the path is not `.`, and none starts with a
/// slash.
proof fn lemma_place_text(s: Seq<char>, i: int, n: int)
    requires
        0 <= i <= s.len(),
        0 <= n < places_from(s, i).len(),
    ensures
        ({
            let p = places_from(s, i)[n];
            &&& i <= p.0 < s.len()
            &&& s[p.0] != '/'
            &&& p.1 == part_end(s, p.0)
            &&& p.0 > 0 ==> !(p.1 == p.0 + 1 && s[p.0] == '.')
        }),
    decreases s.len() - i,
{
    let all = places_from(s, i);
    if i < s.len() {
        lemma_part_end(s, i);
        let end = part_end(s, i);
        if s[i] == '/' {
            lemma_place_text(s, i + 1, n);
        } else if i > 0 && end == i + 1 && s[i] == '.' {
            lemma_place_text(s, end, n);
        } else {
            let rest = places_from(s, end);
            assert(all == seq![(i, end)] + rest);
            if n > 0 {
                assert(all[n] == rest[n - 1]);
                lemma_place_text(s, end, n - 1);
            }
        }
    }
}

/// A path has a prefix taken off exactly where the parts of the prefix, the root among
/// them, are its first. What is left is a piece of its text; it has the parts behind the
/// prefix, and starts and ends with no slash.
pub proof fn law_strip_prefix(path: PathView, prefix: PathView)
    requires
        prefix.text.len() > 0,
    ensures
        path.strip_prefix(prefix) is Some <==> path.key().root == prefix.key().root
            && prefix.key().parts.len() <= path.key().parts.len() && (forall|i: int|
            0 <= i < prefix.key().parts.len() ==> prefix.key().parts[i]
                == #[trigger] path.key().parts[i]),
        path.strip_prefix(prefix) matches Some(rest) ==> {
            &&& !rest.key().root
            &&& rest.key().parts == path.key().parts.skip(prefix.key().parts.len() as int)
            &&& rest.text.len() > 0 ==> rest.text[0] != '/' && rest.text.last() != '/'
            &&& exists|from: int, to: int|
                0 <= from <= to <= path.text.len() && rest.text == #[trigger] path.text.subrange(
                    from,
                    to,
                )
        },
{
    let ours = path.key().parts;
    let theirs = prefix.key().parts;
    if theirs.is_prefix_of(ours) {
        assert forall|i: int| 0 <= i < theirs.len() implies theirs[i] == #[trigger] ours[i] by {
            assert(theirs[i] == ours.subrange(0, theirs.len() as int)[i]);
        }
    }
    if theirs.len() <= ours.len() && (forall|i: int|
        0 <= i < theirs.len() ==> theirs[i] == #[trigger] ours[i]) {
        assert(theirs =~= ours.subrange(0, theirs.len() as int));
    }
    if let Some(rest) = path.strip_prefix(prefix) {
        let s = path.text;
        let places = path.places();
        let n = prefix.places().len() as int;
        if n == places.len() {
            assert(places_from(rest.text, 0) =~= Seq::empty());
            assert(rest.key().parts =~= ours.skip(n));
            assert(rest.text =~= s.subrange(0, 0));
        } else {
            let from = places[n].0;
            let to = places.last().1;
            lemma_places(s, 0, places);
            lemma_place_text(s, 0, n);
            lemma_place_text(s, 0, places.len() - 1);
            assert(from <= places.last().0);
            lemma_none_behind_last(s, 0);
            lemma_texts_from_place(s, 0, n);
            let cut = s.take(to);
            lemma_texts_in_front(s, cut, from);
            assert(texts_from(s, to) =~= Seq::empty());
            assert(texts_from(s, from) =~= texts_from(cut, from));
            lemma_end_in_front(s, cut, from);
            let t = rest.text;
            assert(t =~= s.subrange(from, to));
            assert forall|j: int| 0 <= j < t.len() implies cut[from + j] == #[trigger] t[j] by {}
            lemma_end_shifted(cut, t, from, 0);
            if from == 0 {
                assert(t =~= cut);
            }
            lemma_texts_shifted(cut, t, from, 0);
            assert(texts_from(s, from) =~= ours.skip(n));
            assert(rest.key().parts =~= ours.skip(n));
            assert(t[0] == s[from]);
            lemma_last_char(s, places.last().0);
        }
    }
}

/// An empty prefix takes nothing off but what is behind the last part: what is left is the
/// start of the text and names the same.
pub proof fn law_strip_nothing(path: PathView, prefix: PathView)
    requires
        prefix.text.len() == 0,
    ensures
        path.strip_prefix(prefix) matches Some(rest) && rest.text.is_prefix_of(path.text)
            && rest.key() == path.key() && (rest.text.len() > 1 ==> rest.text.last() != '/'),
{
    let s = path.text;
    let places = path.places();
    assert(places_from(prefix.text, 0) =~= Seq::empty());
    assert(prefix.key().parts =~= path.key().parts.subrange(0, 0));
    let rest = path.strip_prefix(prefix)->0;
    let t = rest.text;
    if places.len() == 0 {
        assert(path.key().parts =~= Seq::empty());
        law_one_part(Seq::empty());
        if path.rooted() {
            assert(t =~= seq!['/'] + Seq::<char>::empty());
        } else {
            if s.len() > 0 {
                lemma_part_end(s, 0);
                assert(places_from(s, 0) =~= seq![(0int, part_end(s, 0))] + places_from(
                    s,
                    part_end(s, 0),
                ));
                assert(places.len() > 0);
            }
            assert(t =~= Seq::empty());
        }
    } else {
        let to = places.last().1;
        lemma_places(s, 0, places);
        lemma_place_text(s, 0, places.len() - 1);
        lemma_none_behind_last(s, 0);
        lemma_texts_in_front(s, t, 0);
        assert(texts_from(s, to) =~= Seq::empty());
        assert(texts_from(s, 0) =~= texts_from(t, 0));
        assert(t[0] == s[0]);
        lemma_last_char(s, places.last().0);
    }
    assert(t =~= s.subrange(0, t.len() as int));
    assert(rest.key() =~= path.key());
}

/// The last letter of a part is not a slash.
proof fn lemma_last_char(s: Seq<char>, i: int)
    requires
        0 <= i < s.len(),
        s[i] != '/',
    ensures
        s[part_end(s, i) - 1] != '/',
    decreases s.len() - i,
{
    lemma_part_end(s, i);
    assert(part_end(s, i) == part_end(s, i + 1));
    if i + 1 < s.len() && s[i + 1] != '/' {
        lemma_last_char(s, i + 1);
    } else {
        assert(part_end(s, i + 1) == i + 1);
    }
}

/// Spans lead to the same where the rows and columns are equal and the paths name the
/// same.
pub proof fn law_same_place(x: SpanView, y: SpanView)
    ensures
        x.key() == y.key() <==> x.range.row_start == y.range.row_start && x.range.row_end
            == y.range.row_end && x.range.col_start == y.range.col_start && x.range.col_end
            == y.range.col_end && x.file.key().root == y.file.key().root && x.file.key().parts
            == y.file.key().parts,
{
    if x.file.key().root == y.file.key().root && x.file.key().parts == y.file.key().parts {
        assert(x.file.key() =~= y.file.key());
    }
}

/// A file is that of a crate on the list where its name is `lib`, the name of the crate, a
/// dash and anything.
pub proof fn law_blacklisted(name: Seq<char>, blacklist: Seq<Seq<char>>)
    ensures
        blacklisted(name, blacklist) <==> exists|i: int, rest: Seq<char>|
            0 <= i < blacklist.len() && name == "lib"@ + #[trigger] blacklist[i] + "-"@
                + #[trigger] rest.take(rest.len() as int),
{
    if blacklisted(name, blacklist) {
        let i = choose|i: int|
            0 <= i < blacklist.len() && ("lib"@ + #[trigger] blacklist[i] + "-"@).is_prefix_of(name);
        let start = "lib"@ + blacklist[i] + "-"@;
        let rest = name.skip(start.len() as int);
        assert(name =~= "lib"@ + blacklist[i] + "-"@ + rest.take(rest.len() as int));
    }
    if exists|i: int, rest: Seq<char>|
        0 <= i < blacklist.len() && name == "lib"@ + #[trigger] blacklist[i] + "-"@
            + #[trigger] rest.take(rest.len() as int) {
        let (i, rest) = choose|i: int, rest: Seq<char>|
            0 <= i < blacklist.len() && name == "lib"@ + #[trigger] blacklist[i] + "-"@
                + #[trigger] rest.take(rest.len() as int);
        let start = "lib"@ + blacklist[i] + "-"@;
        assert(start =~= name.subrange(0, start.len() as int));
    }
}

/// The time recorded for a file is that of its last record, and there is none only where
/// there is no record.
pub proof fn law_recorded(times: Seq<(PathView, u128)>, path: PathView, i: int)
    ensures
        0 <= i < times.len() && times[i].0.key() == path.key() && (forall|j: int|
            i < j < times.len() ==> (#[trigger] times[j]).0.key() != path.key()) ==> recorded(
            times,
            path,
        ) == Some(times[i].1),
        recorded(times, path) is None <==> forall|j: int|
            0 <= j < times.len() ==> (#[trigger] times[j]).0.key() != path.key(),
    decreases times.len(),
{
    if times.len() > 0 {
        let before = times.drop_last();
        law_recorded(before, path, i);
        if times.last().0.key() != path.key() {
            assert forall|j: int| 0 <= j < before.len() implies #[trigger] before[j] == times[j] by {}
            if recorded(times, path) is None {
                assert forall|j: int| 0 <= j < times.len() implies (#[trigger] times[j]).0.key()
                    != path.key() by {
                    if j < before.len() {
                        assert(before[j].0.key() != path.key());
                    }
                }
            }
            if forall|j: int| 0 <= j < times.len() ==> (#[trigger] times[j]).0.key() != path.key() {
                assert forall|j: int| 0 <= j < before.len() implies (#[trigger] before[j]).0.key()
                    != path.key() by {
                    assert(before[j] == times[j]);
                    assert(times[j].0.key() != path.key());
                }
            }
            if 0 <= i < times.len() && times[i].0.key() == path.key() && (forall|j: int|
                i < j < times.len() ==> (#[trigger] times[j]).0.key() != path.key()) {
                assert(before[i] == times[i]);
                assert forall|j: int| i < j < before.len() implies (#[trigger] before[j]).0.key()
                    != path.key() by {
                    assert(before[j] == times[j]);
                    assert(times[j].0.key() != path.key());
                }
            }
        } else {
            assert(times[times.len() - 1].0.key() == path.key());
        }
    }
}

/// A file is read where its crate is not on the list and it has no time recorded or an
/// earlier one.
pub proof fn law_wanted(
    dir: PathView,
    file: (Seq<char>, u128),
    times: Seq<(PathView, u128)>,
    blacklist: Seq<Seq<char>>,
)
    ensures
        blacklisted(file.0, blacklist) ==> !wanted(dir, file, times, blacklist),
        !blacklisted(file.0, blacklist) ==> (match recorded(times, dir.join(written(file.0))) {
            Some(t) => wanted(dir, file, times, blacklist) <==> file.1 > t,
            None => wanted(dir, file, times, blacklist),
        }),
{
}

/// The files to read are those that are wanted, in order, each with its path in the
/// directory and its time.
pub proof fn law_files_to_read(
    dir: PathView,
    files: Seq<(Seq<char>, u128)>,
    times: Seq<(PathView, u128)>,
    blacklist: Seq<Seq<char>>,
)
    ensures
        to_read(dir, files, times, blacklist) == files.filter(
            |file: (Seq<char>, u128)| wanted(dir, file, times, blacklist),
        ).map_values(|file: (Seq<char>, u128)| (dir.join(written(file.0)), file.1)),
    decreases files.len(),
{
    reveal(Seq::filter);
    let keep = |file: (Seq<char>, u128)| wanted(dir, file, times, blacklist);
    let place = |file: (Seq<char>, u128)| (dir.join(written(file.0)), file.1);
    if files.len() > 0 {
        law_files_to_read(dir, files.drop_last(), times, blacklist);
    }
    assert(to_read(dir, files, times, blacklist) =~= files.filter(keep).map_values(place));
}

/// The data of a project that is built with Cargo lies in two directories under the
/// project, that of the crates it depends on first.
pub proof fn law_cargo_dirs(loader: CargoAnalysisLoader)
    ensures
        loader.path_prefix is None ==> loader.dirs().len() == 0,
        loader.path_prefix matches Some(prefix) ==> (prefix@.text.len() > 0 && prefix@.text.last()
            != '/' ==> {
            let rls = prefix@.text + (match loader.target {
                Target::Debug => "/target/rls/debug"@,
                Target::Release => "/target/rls/release"@,
            });
            &&& loader.dirs().len() == 2
            &&& loader.dirs()[0].text == rls + "/deps/save-analysis"@
            &&& loader.dirs()[1].text == rls + "/save-analysis"@
        }),
{
    reveal_strlit("target");
    reveal_strlit("rls");
    reveal_strlit("debug");
    reveal_strlit("release");
    reveal_strlit("deps");
    reveal_strlit("save-analysis");
    reveal_strlit("/target/rls/debug");
    reveal_strlit("/target/rls/release");
    reveal_strlit("/deps/save-analysis");
    reveal_strlit("/save-analysis");
    if let Some(prefix) = loader.path_prefix {
        if prefix@.text.len() > 0 && prefix@.text.last() != '/' {
            let rls = prefix@.text + (match loader.target {
                Target::Debug => "/target/rls/debug"@,
                Target::Release => "/target/rls/release"@,
            });
            assert(loader.dirs()[0].text =~= rls + "/deps/save-analysis"@);
            assert(loader.dirs()[1].text =~= rls + "/save-analysis"@);
        }
    }
}

/// Whether a function may give this list on a path that is written so.
pub open spec fn given_on<F, T>(f: F, dir: PathView, list: Seq<T>) -> bool where
    F: Fn(&FilePath) -> Vec<T>,
 {
    exists|path: FilePath, found: Vec<T>|
        path@ == dir && found@ == list && #[trigger] call_ensures(f, (&path,), found)
}

/// Walking over directories gives, directory by directory, what the function gives on
/// each.
pub proof fn law_walked<F, T>(f: F, dirs: Seq<PathView>, r: Seq<T>) -> (each: Seq<Seq<T>>) where
    F: Fn(&FilePath) -> Vec<T>,

    requires
        walked(f, dirs, r),
    ensures
        each.len() == dirs.len(),
        r == each.flatten(),
        forall|i: int| 0 <= i < each.len() ==> given_on(f, dirs[i], #[trigger] each[i]),
{
    let each = choose|each: Seq<Seq<T>>| #[trigger] gives_each(f, dirs, each) && r == each.flatten();
    assert forall|i: int| 0 <= i < each.len() implies given_on(f, dirs[i], #[trigger] each[i]) by {
        assert(gives(f, dirs[i], each[i]));
    }
    each
}

} // verus!
