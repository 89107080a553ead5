//! Where Factorio keeps its user data on each operating system, and the
//! places found there.

use crate::common::factorio::{first_existing, Candidate};
use crate::common::text::append_str;
use vstd::prelude::*;

verus! {

/// The operating systems the paths below are known for.
#[derive(Debug, Clone, Copy, PartialEq, Eq, Structural)]
pub enum TargetOs {
    Windows,
    Linux,
    MacOs,
    Other,
}

/// Whether `c` separates path components on `os`.
pub open spec fn is_separator(os: TargetOs, c: char) -> bool {
    c == '/' || (os == TargetOs::Windows && c == '\\')
}

/// `Path::join` of a relative path: a separator is put between them unless
/// the base is empty or already ends in one.
pub open spec fn joined_path(os: TargetOs, base: Seq<char>, rel: Seq<char>) -> Seq<char> {
    if base.len() == 0 || is_separator(os, base.last()) {
        base + rel
    } else {
        base + seq![if os == TargetOs::Windows { '\\' } else { '/' }] + rel
    }
}

/// Joins a relative path onto `base`.
pub fn join_path(os: TargetOs, base: &str, rel: &str) -> (r: String)
    ensures
        r@ == joined_path(os, base@, rel@),
{
    let mut out = String::new();
    append_str(&mut out, base);
    let cs = crate::common::text::chars_of(base);
    let needs = if cs.len() == 0 {
        false
    } else {
        let last = cs[cs.len() - 1];
        !(last == '/' || (os == TargetOs::Windows && last == '\\'))
    };
    if needs {
        if os == TargetOs::Windows {
            out.push('\\');
        } else {
            out.push('/');
        }
    }
    append_str(&mut out, rel);
    out
}

/// The user data directories of Factorio under the home directory: the one
/// of each install kind on the operating system.
pub open spec fn user_data_dirs_of(os: TargetOs, home: Option<Seq<char>>) -> Seq<Seq<char>> {
    match home {
        None => Seq::empty(),
        Some(h) => match os {
            TargetOs::Windows => seq![joined_path(os, h, "AppData/Roaming/Factorio"@)],
            TargetOs::Linux => seq![
                joined_path(os, h, ".factorio"@),
                joined_path(os, h, ".var/app/com.valvesoftware.Steam/.factorio"@),
            ],
            TargetOs::MacOs => seq![joined_path(os, h, "Library/Application Support/factorio"@)],
            TargetOs::Other => Seq::empty(),
        },
    }
}

/// The views of a list of strings.
pub open spec fn strings_view(v: Seq<String>) -> Seq<Seq<char>> {
    v.map_values(|s: String| s@)
}

/// The user data directories of Factorio under `home`.
pub fn default_user_data_dirs(os: TargetOs, home: Option<&str>) -> (r: Vec<String>)
    ensures
        strings_view(r@) == user_data_dirs_of(os, match home {
            Some(h) => Some(h@),
            None => None,
        }),
{
    let mut paths: Vec<String> = Vec::new();
    match home {
        None => {},
        Some(h) => match os {
            TargetOs::Windows => {
                paths.push(join_path(os, h, "AppData/Roaming/Factorio"));
            },
            TargetOs::Linux => {
                paths.push(join_path(os, h, ".factorio"));
                paths.push(join_path(os, h, ".var/app/com.valvesoftware.Steam/.factorio"));
            },
            TargetOs::MacOs => {
                paths.push(join_path(os, h, "Library/Application Support/factorio"));
            },
            TargetOs::Other => {},
        },
    }
    proof {
        assert(strings_view(paths@) =~= user_data_dirs_of(os, match home {
            Some(h) => Some(h@),
            None => None,
        }));
    }
    paths
}

/// Each directory with `rel` joined onto it.
pub open spec fn under_each(os: TargetOs, dirs: Seq<Seq<char>>, rel: Seq<char>) -> Seq<Seq<char>> {
    dirs.map_values(|d: Seq<char>| joined_path(os, d, rel))
}

/// The directories with `rel` joined onto each.
pub fn join_each(os: TargetOs, dirs: &Vec<String>, rel: &str) -> (r: Vec<String>)
    ensures
        strings_view(r@) == under_each(os, strings_view(dirs@), rel@),
{
    let mut out: Vec<String> = Vec::new();
    let mut i: usize = 0;
    while i < dirs.len()
        invariant
            i <= dirs@.len(),
            out@.len() == i,
            forall|k: int| 0 <= k < i ==> (#[trigger] out@[k])@ == joined_path(os, dirs@[k]@, rel@),
        decreases dirs@.len() - i,
    {
        out.push(join_path(os, dirs[i].as_str(), rel));
        i += 1;
    }
    proof {
        assert(strings_view(out@) =~= under_each(os, strings_view(dirs@), rel@));
    }
    out
}

/// Where the sanitizer mod writes its output, under each user data
/// directory.
pub fn sanitizer_candidates(os: TargetOs, dirs: &Vec<String>) -> (r: Vec<String>)
    ensures
        strings_view(r@) == under_each(os, strings_view(dirs@), "script-output/belt"@),
{
    join_each(os, dirs, "script-output/belt")
}

/// Where a save named `name` is written, under each user data directory.
pub fn save_file_candidates(os: TargetOs, dirs: &Vec<String>, name: &str) -> (r: Vec<String>)
    ensures
        strings_view(r@) == under_each(os, strings_view(dirs@), "saves/"@ + name@ + ".zip"@),
{
    let mut rel = String::new();
    append_str(&mut rel, "saves/");
    append_str(&mut rel, name);
    append_str(&mut rel, ".zip");
    join_each(os, dirs, rel.as_str())
}

/// The mod directory under each user data directory.
pub fn mod_directory_candidates(os: TargetOs, dirs: &Vec<String>) -> (r: Vec<String>)
    ensures
        strings_view(r@) == under_each(os, strings_view(dirs@), "mods"@),
{
    join_each(os, dirs, "mods")
}

/// The first candidate that is present, if any.
pub open spec fn first_present(c: Seq<Candidate>) -> Option<Seq<char>> {
    let i = first_existing(c);
    if i < c.len() {
        Some(c[i].path@)
    } else {
        None
    }
}

fn pick_first(candidates: &[Candidate]) -> (r: Option<String>)
    ensures
        match r {
            Some(p) => first_present(candidates@) == Some(p@),
            None => first_present(candidates@) is None,
        },
{
    proof {
        crate::common::factorio::lemma_first_existing(candidates@);
    }
    let mut i: usize = 0;
    while i < candidates.len()
        invariant
            i <= candidates@.len(),
            i <= first_existing(candidates@),
            0 <= first_existing(candidates@) <= candidates@.len(),
            forall|j: int| 0 <= j < first_existing(candidates@) ==> !(#[trigger] candidates@[j]).exists,
            first_existing(candidates@) < candidates@.len() ==> candidates@[first_existing(candidates@)].exists,
        decreases candidates@.len() - i,
    {
        if candidates[i].exists {
            return Some(candidates[i].path.clone());
        }
        i += 1;
    }
    None
}

/// The output directory of the sanitizer mod: the first of
/// [`sanitizer_candidates`] that is a directory.
pub fn check_sanitizer(candidates: &[Candidate]) -> (r: Option<String>)
    ensures
        match r {
            Some(p) => first_present(candidates@) == Some(p@),
            None => first_present(candidates@) is None,
        },
{
    pick_first(candidates)
}

/// A save written by the game: the first of [`save_file_candidates`] that
/// exists.
pub fn check_save_file(candidates: &[Candidate]) -> (r: Option<String>)
    ensures
        match r {
            Some(p) => first_present(candidates@) == Some(p@),
            None => first_present(candidates@) is None,
        },
{
    pick_first(candidates)
}

/// The mod directory: the first of [`mod_directory_candidates`] that is a
/// directory.
pub fn find_mod_directory(candidates: &[Candidate]) -> (r: Option<String>)
    ensures
        match r {
            Some(p) => first_present(candidates@) == Some(p@),
            None => first_present(candidates@) is None,
        },
{
    pick_first(candidates)
}

} // verus!
