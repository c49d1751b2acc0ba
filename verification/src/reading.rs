//! Which files with analysis data are to be read.
use vstd::prelude::*;

use crate::path::{FilePath, PathView};
use crate::text::chars_of;

verus! {

/// Whether a file has the name of the data of a crate on the blacklist.
pub open spec fn blacklisted(name: Seq<char>, blacklist: Seq<Seq<char>>) -> bool {
    exists|i: int|
        0 <= i < blacklist.len() && ("lib"@ + #[trigger] blacklist[i] + "-"@).is_prefix_of(name)
}

/// The time that was recorded last for a file, if any was.
pub open spec fn recorded(timestamps: Seq<(PathView, u128)>, path: PathView) -> Option<u128>
    decreases timestamps.len(),
{
    if timestamps.len() == 0 {
        None
    } else if timestamps.last().0.key() == path.key() {
        Some(timestamps.last().1)
    } else {
        recorded(timestamps.drop_last(), path)
    }
}

/// The path of a file in a directory.
pub open spec fn path_in(dir: PathView, name: Seq<char>) -> PathView {
    dir.join(PathView { text: name })
}

/// Whether a file of a directory is to be read: it is not that of a crate on the
/// blacklist, and it is newer than the time recorded for it, if one is.
pub open spec fn wanted(
    dir: PathView,
    file: (Seq<char>, u128),
    timestamps: Seq<(PathView, u128)>,
    blacklist: Seq<Seq<char>>,
) -> bool {
    &&& !blacklisted(file.0, blacklist)
    &&& recorded(timestamps, path_in(dir, file.0)) matches Some(t) ==> file.1 > t
}

/// The paths and times of the files of a directory that are to be read.
pub open spec fn to_read(
    dir: PathView,
    files: Seq<(Seq<char>, u128)>,
    timestamps: Seq<(PathView, u128)>,
    blacklist: Seq<Seq<char>>,
) -> Seq<(PathView, u128)>
    decreases files.len(),
{
    if files.len() == 0 {
        Seq::empty()
    } else {
        let before = to_read(dir, files.drop_last(), timestamps, blacklist);
        let file = files.last();
        if wanted(dir, file, timestamps, blacklist) {
            before.push((path_in(dir, file.0), file.1))
        } else {
            before
        }
    }
}

/// Whether a text starts with another.
fn starts_with(text: &Vec<char>, start: &Vec<char>) -> (b: bool)
    ensures
        b == start@.is_prefix_of(text@),
{
    if start.len() > text.len() {
        return false;
    }
    for i in 0..start.len()
        invariant
            start@.len() <= text@.len(),
            forall|j: int| 0 <= j < i ==> start@[j] == text@[j],
    {
        if start[i] != text[i] {
            assert(start@[i as int] != text@.take(start@.len() as int)[i as int]);
            return false;
        }
    }
    assert(start@ =~= text@.take(start@.len() as int));
    true
}

/// Whether a file has the name of the data of a crate on the blacklist.
pub fn is_blacklisted(name: &str, blacklist: &[&str]) -> (b: bool)
    ensures
        b == blacklisted(name@, blacklist@.map_values(|s: &str| s@)),
{
    let ghost names = blacklist@.map_values(|s: &str| s@);
    let text = chars_of(name);
    for i in 0..blacklist.len()
        invariant
            text@ == name@,
            names == blacklist@.map_values(|s: &str| s@),
            forall|j: int|
                0 <= j < i ==> !("lib"@ + #[trigger] names[j] + "-"@).is_prefix_of(name@),
    {
        let mut start = chars_of("lib");
        let mut of_crate = chars_of(blacklist[i]);
        let mut dash = chars_of("-");
        start.append(&mut of_crate);
        start.append(&mut dash);
        assert(start@ =~= "lib"@ + names[i as int] + "-"@);
        if starts_with(&text, &start) {
            return true;
        }
    }
    false
}

/// The time that was recorded last for a file, if any was.
pub fn recorded_time(timestamps: &Vec<(FilePath, u128)>, path: &FilePath) -> (r: Option<u128>)
    ensures
        r == recorded(timestamps.deep_view(), path@),
{
    let ghost times = timestamps.deep_view();
    let mut i: usize = timestamps.len();
    assert(times.take(i as int) =~= times);
    while i > 0
        invariant
            i <= timestamps@.len(),
            times == timestamps.deep_view(),
            recorded(times, path@) == recorded(times.take(i as int), path@),
        decreases i,
    {
        i -= 1;
        assert(times.take(i + 1).drop_last() =~= times.take(i as int));
        assert(times.take(i + 1).last() == (timestamps@[i as int].0@, timestamps@[i as int].1));
        if timestamps[i].0.same(path) {
            return Some(timestamps[i].1);
        }
    }
    None
}

/// The paths and times of the files of a directory that are to be read, of all
/// its files with their names and times.
pub fn files_to_read(
    dir: &FilePath,
    files: &Vec<(String, u128)>,
    timestamps: &Vec<(FilePath, u128)>,
    blacklist: &[&str],
) -> (r: Vec<(FilePath, u128)>)
    ensures
        r.deep_view() == to_read(
            dir@,
            files.deep_view(),
            timestamps.deep_view(),
            blacklist@.map_values(|s: &str| s@),
        ),
{
    let ghost all = files.deep_view();
    let ghost times = timestamps.deep_view();
    let ghost names = blacklist@.map_values(|s: &str| s@);
    let mut r: Vec<(FilePath, u128)> = Vec::new();
    assert(r.deep_view() =~= Seq::empty());
    for i in 0..files.len()
        invariant
            all == files.deep_view(),
            times == timestamps.deep_view(),
            names == blacklist@.map_values(|s: &str| s@),
            r.deep_view() == to_read(dir@, all.take(i as int), times, names),
    {
        let ghost before = r.deep_view();
        assert(all.take(i + 1).drop_last() =~= all.take(i as int));
        assert(all.take(i + 1).last() == (files@[i as int].0@, files@[i as int].1));
        let time: u128 = files[i].1;
        let path = dir.join(&FilePath::named(files[i].0.as_str()));
        assert(path@ =~= path_in(dir@, files@[i as int].0@));
        if !is_blacklisted(files[i].0.as_str(), blacklist) {
            let fresh = match recorded_time(timestamps, &path) {
                Some(t) => time > t,
                None => true,
            };
            if fresh {
                r.push((path, time));
                assert(r.deep_view() =~= before.push((path@, time)));
            }
        }
    }
    assert(all.take(files@.len() as int) =~= all);
    r
}

} // verus!
