//! Where the programs are that the guest systems need.
use vstd::prelude::*;

use crate::path::{joined, path_texts, FsPath};
use crate::text::strs;

verus! {

/// A place where a program may be, and whether a file is there.
pub struct Place {
    pub path: FsPath,
    pub is_file: bool,
}

/// The first place that holds a file.
pub open spec fn first_file(places: Seq<Place>) -> Option<Seq<char>>
    decreases places.len(),
{
    if places.len() == 0 {
        None
    } else {
        match first_file(places.drop_last()) {
            Some(path) => Some(path),
            None => if places.last().is_file {
                Some(places.last().path@)
            } else {
                None
            },
        }
    }
}

proof fn lemma_first_file_stays(places: Seq<Place>, n: int)
    requires
        0 <= n <= places.len(),
        first_file(places.take(n)) is Some,
    ensures
        first_file(places) == first_file(places.take(n)),
    decreases places.len() - n,
{
    if n < places.len() {
        assert(places.take(n + 1).drop_last() =~= places.take(n));
        lemma_first_file_stays(places, n + 1);
    } else {
        assert(places.take(n) =~= places);
    }
}

/// Finds the first place that holds a file.
pub fn find_file(places: &Vec<Place>) -> (r: Option<FsPath>)
    ensures
        match r {
            Some(path) => first_file(places@) == Some(path@),
            None => first_file(places@) is None,
        },
{
    let mut i: usize = 0;
    while i < places.len()
        invariant
            i <= places.len(),
            first_file(places@.take(i as int)) is None,
        decreases places.len() - i,
    {
        proof {
            assert(places@.take(i + 1).drop_last() =~= places@.take(i as int));
            assert(places@.take(i + 1).last() == places@[i as int]);
        }
        if places[i].is_file {
            proof {
                lemma_first_file_stays(places@, i + 1);
            }
            return Some(places[i].path.copy());
        }
        i += 1;
    }
    assert(places@.take(places.len() as int) =~= places@);
    None
}

/// The text of a path that may be missing.
pub open spec fn path_text(path: Option<FsPath>) -> Option<Seq<char>> {
    match path {
        Some(p) => Some(p@),
        None => None,
    }
}

/// A program in each of the directories.
pub open spec fn in_directories(directories: Seq<Seq<char>>, name: Seq<char>) -> Seq<Seq<char>> {
    Seq::new(directories.len(), |i: int| joined(directories[i], name))
}

/// Where a program is looked for, in order: where it was configured to be, in the directories of
/// the search path, and where it usually is.
pub open spec fn places_of(
    configured: Option<Seq<char>>,
    directories: Seq<Seq<char>>,
    name: Seq<char>,
    usual: Seq<Seq<char>>,
) -> Seq<Seq<char>> {
    (match configured {
        Some(path) => seq![path],
        None => Seq::empty(),
    }) + in_directories(directories, name) + usual
}

fn list_places(
    configured: &Option<FsPath>,
    directories: &Vec<FsPath>,
    name: &str,
    usual: Vec<&str>,
) -> (r: Vec<FsPath>)
    ensures
        path_texts(r@) == places_of(
            path_text(*configured),
            path_texts(directories@),
            name@,
            strs(usual@),
        ),
{
    let ghost found = path_text(*configured);
    let ghost all = path_texts(directories@);
    let mut r: Vec<FsPath> = Vec::new();
    if let Some(path) = configured {
        r.push(path.copy());
    }
    let ghost head = path_texts(r@);
    let mut i: usize = 0;
    assert(path_texts(r@) =~= head + in_directories(all.take(0), name@));
    while i < directories.len()
        invariant
            i <= directories.len(),
            all == path_texts(directories@),
            path_texts(r@) == head + in_directories(all.take(i as int), name@),
        decreases directories.len() - i,
    {
        let ghost before = r@;
        r.push(directories[i].join(name));
        proof {
            assert(path_texts(r@) =~= path_texts(before).push(joined(all[i as int], name@)));
            assert(in_directories(all.take(i + 1), name@) =~= in_directories(
                all.take(i as int),
                name@,
            ).push(joined(all[i as int], name@)));
            assert(path_texts(r@) =~= head + in_directories(all.take(i + 1), name@));
        }
        i += 1;
    }
    assert(all.take(directories.len() as int) =~= all);
    let ghost body = path_texts(r@);
    let mut k: usize = 0;
    assert(path_texts(r@) =~= body + strs(usual@).take(0));
    while k < usual.len()
        invariant
            k <= usual.len(),
            path_texts(r@) == body + strs(usual@).take(k as int),
        decreases usual.len() - k,
    {
        let ghost before = r@;
        r.push(FsPath::new(usual[k]));
        proof {
            assert(path_texts(r@) =~= path_texts(before).push(usual@[k as int]@));
            assert(strs(usual@).take(k + 1) =~= strs(usual@).take(k as int).push(
                usual@[k as int]@,
            ));
            assert(path_texts(r@) =~= body + strs(usual@).take(k + 1));
        }
        k += 1;
    }
    assert(strs(usual@).take(usual.len() as int) =~= strs(usual@));
    assert(path_texts(r@) =~= places_of(found, all, name@, strs(usual@)));
    r
}

/// Where the Docker client is looked for.
pub fn docker_places(configured: &Option<FsPath>, directories: &Vec<FsPath>) -> (r: Vec<FsPath>)
    ensures
        path_texts(r@) == places_of(
            path_text(*configured),
            path_texts(directories@),
            "docker"@,
            seq!["/usr/local/bin/docker"@, "/opt/homebrew/bin/docker"@],
        ),
{
    let usual = vec!["/usr/local/bin/docker", "/opt/homebrew/bin/docker"];
    assert(strs(usual@) =~= seq!["/usr/local/bin/docker"@, "/opt/homebrew/bin/docker"@]);
    list_places(configured, directories, "docker", usual)
}

/// Finds the Docker client.
pub fn find_docker(places: &Vec<Place>) -> (r: Result<FsPath, String>)
    ensures
        match r {
            Ok(path) => first_file(places@) == Some(path@),
            Err(e) => first_file(places@) is None && e@
                == "Docker is required for the lightweight Linux image runner"@,
        },
{
    match find_file(places) {
        Some(path) => Ok(path),
        None => Err("Docker is required for the lightweight Linux image runner".to_owned()),
    }
}

/// Where the Lima client is looked for.
pub fn lima_places(configured: &Option<FsPath>, directories: &Vec<FsPath>) -> (r: Vec<FsPath>)
    ensures
        path_texts(r@) == places_of(
            path_text(*configured),
            path_texts(directories@),
            "limactl"@,
            seq!["/opt/homebrew/bin/limactl"@, "/usr/local/bin/limactl"@],
        ),
{
    let usual = vec!["/opt/homebrew/bin/limactl", "/usr/local/bin/limactl"];
    assert(strs(usual@) =~= seq!["/opt/homebrew/bin/limactl"@, "/usr/local/bin/limactl"@]);
    list_places(configured, directories, "limactl", usual)
}

/// Finds the Lima client.
pub fn find_limactl(places: &Vec<Place>) -> (r: Result<FsPath, String>)
    ensures
        match r {
            Ok(path) => first_file(places@) == Some(path@),
            Err(e) => first_file(places@) is None && e@
                == "Lima 2.1 or newer is required for isolated macOS enter/exec; install it and prepare a macOS base instance"@,
        },
{
    match find_file(places) {
        Some(path) => Ok(path),
        None => Err(
            "Lima 2.1 or newer is required for isolated macOS enter/exec; install it and prepare a macOS base instance".to_owned(),
        ),
    }
}

} // verus!
