//! Which files of an event folder are assets (copied as they are), and
//! where they go.
//!
//! Paths are relative to the event folder, with `/` between components.
use vstd::prelude::*;
use crate::text::{chars_equal, chars_of, push_range, strs};

verus! {

/// The index of the last `c` in `s`, or -1 where there is none.
pub open spec fn last_index_of(s: Seq<char>, c: char) -> int
    decreases s.len(),
{
    if s.len() == 0 {
        -1
    } else if s.last() == c {
        s.len() - 1
    } else {
        last_index_of(s.drop_last(), c)
    }
}

/// The last component of a path.
pub open spec fn file_name(path: Seq<char>) -> Seq<char> {
    path.skip(last_index_of(path, '/') + 1)
}

/// Whether a file name has the extension `md`: what follows its last `.`,
/// where that `.` is not the first character.
pub open spec fn has_md_extension(name: Seq<char>) -> bool {
    let d = last_index_of(name, '.');
    d > 0 && name.skip(d + 1) == "md"@
}

/// Whether the file at `path` is an asset: neither the event's descriptor
/// (`meta.toml` at the top of the event folder) nor a Markdown file. A
/// `meta.toml` in a subfolder is an asset.
pub open spec fn is_asset_path(path: Seq<char>) -> bool {
    path != "meta.toml"@ && !has_md_extension(file_name(path))
}

/// The assets among `paths`, in the order given.
pub open spec fn assets_of(paths: Seq<Seq<char>>) -> Seq<Seq<char>>
    decreases paths.len(),
{
    if paths.len() == 0 {
        Seq::empty()
    } else if is_asset_path(paths.last()) {
        assets_of(paths.drop_last()).push(paths.last())
    } else {
        assets_of(paths.drop_last())
    }
}

proof fn lemma_last_index_bounds(s: Seq<char>, c: char)
    ensures
        -1 <= last_index_of(s, c) < s.len(),
        last_index_of(s, c) >= 0 ==> s[last_index_of(s, c)] == c,
    decreases s.len(),
{
    if s.len() > 0 && s.last() != c {
        lemma_last_index_bounds(s.drop_last(), c);
    }
}

fn find_last(s: &Vec<char>, c: char) -> (r: Option<usize>)
    ensures
        r matches Some(d) ==> last_index_of(s@, c) == d as int,
        r is None ==> last_index_of(s@, c) == -1,
{
    let mut i: usize = s.len();
    assert(s@.take(i as int) =~= s@);
    while i > 0
        invariant
            0 <= i <= s@.len(),
            last_index_of(s@, c) == last_index_of(s@.take(i as int), c),
        decreases i,
    {
        assert(s@.take(i as int).drop_last() =~= s@.take(i - 1));
        if s[i - 1] == c {
            return Some(i - 1);
        }
        i = i - 1;
    }
    None
}

/// Whether the file at `path` (relative to its event folder) is an asset:
/// neither the descriptor `meta.toml` at the top of the event folder nor a
/// file with the extension `md`.
pub fn is_asset(path: &str) -> (r: bool)
    ensures
        r == is_asset_path(path@),
{
    let p = chars_of(path);
    let n = p.len();
    proof {
        lemma_last_index_bounds(p@, '/');
    }
    let start: usize = match find_last(&p, '/') {
        Some(d) => d + 1,
        None => 0,
    };
    let mut name: Vec<char> = Vec::new();
    push_range(&mut name, &p, start, p.len());
    assert(name@ =~= file_name(path@));
    let descriptor = chars_of("meta.toml");
    if chars_equal(&p, &descriptor) {
        return false;
    }
    match find_last(&name, '.') {
        Some(d) => {
            proof {
                lemma_last_index_bounds(name@, '.');
            }
            if d == 0 {
                return true;
            }
            let mut ext: Vec<char> = Vec::new();
            push_range(&mut ext, &name, d + 1, name.len());
            assert(ext@ =~= name@.skip(d + 1));
            let md = chars_of("md");
            !chars_equal(&ext, &md)
        },
        None => true,
    }
}

/// The assets among the files of an event folder (paths relative to it), in
/// the order given: every file but the descriptor and the Markdown files.
pub fn classify_assets(files: &Vec<String>) -> (r: Vec<String>)
    ensures
        strs(r@) == assets_of(strs(files@)),
{
    let mut out: Vec<String> = Vec::new();
    let mut i: usize = 0;
    while i < files.len()
        invariant
            0 <= i <= files@.len(),
            strs(out@) == assets_of(strs(files@.take(i as int))),
        decreases files.len() - i,
    {
        let ghost before = out@;
        let keep = is_asset(files[i].as_str());
        if keep {
            out.push(files[i].clone());
        }
        let ghost s = strs(files@.take(i + 1));
        assert(s.drop_last() =~= strs(files@.take(i as int)));
        assert(s.last() == files@[i as int]@);
        if keep {
            assert(strs(out@) =~= strs(before).push(files@[i as int]@));
        } else {
            assert(strs(out@) =~= strs(before));
        }
        i = i + 1;
    }
    assert(files@.take(files@.len() as int) =~= files@);
    out
}

/// Where an asset of an event goes: the same relative path under the
/// event's output folder.
pub fn asset_output_path(event_folder: &str, relative_path: &str) -> (r: String)
    ensures
        r@ == event_folder@ + "/"@ + relative_path@,
{
    let mut out = String::from_str(event_folder);
    out.append("/");
    out.append(relative_path);
    out
}

} // verus!
