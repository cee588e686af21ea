//! Names of segment files, and what catalogued paths may name.

use crate::history::error::{CatalogProblem, HistoryStoreError};
use crate::text::{decimal_digits, ends_with, joined, push_decimal, same_text, strip_suffix};
use vstd::prelude::*;

verus! {

/// The pieces of a path between its slashes.
pub open spec fn pieces(path: Seq<char>) -> Seq<Seq<char>> {
    crate::text::pieces(path, '/')
}

/// A path that starts at the root.
pub open spec fn is_rooted(path: Seq<char>) -> bool {
    path.len() > 0 && path[0] == '/'
}

/// Empty pieces name nothing, nor does a dot, unless a relative path starts
/// with it.
pub open spec fn names_component(piece: Seq<char>, first: bool) -> bool {
    piece.len() > 0 && (piece != seq!['.'] || first)
}

/// The components among the first `count` pieces.
pub open spec fn kept_pieces(all: Seq<Seq<char>>, rooted: bool, count: int) -> Seq<Seq<char>>
    decreases count,
{
    if count <= 0 {
        if rooted {
            seq![seq!['/']]
        } else {
            Seq::empty()
        }
    } else {
        let before = kept_pieces(all, rooted, count - 1);
        if names_component(all[count - 1], count == 1 && !rooted) {
            before.push(all[count - 1])
        } else {
            before
        }
    }
}

/// The components of a path: the root where it starts there, then what its
/// pieces name.
pub open spec fn components(path: Seq<char>) -> Seq<Seq<char>> {
    kept_pieces(pieces(path), is_rooted(path), pieces(path).len() as int)
}

/// A component that names a file, rather than the root, the current or the
/// parent directory.
pub open spec fn is_file_name(component: Seq<char>) -> bool {
    component != seq!['/'] && component != seq!['.'] && component != seq!['.', '.']
}

/// The texts by value.
pub open spec fn views(values: Seq<String>) -> Seq<Seq<char>> {
    crate::text::texts(values)
}

fn split(path: &str) -> (parts: Vec<String>)
    ensures
        views(parts@) == pieces(path@),
        parts@.len() > 0,
{
    crate::text::split(path, '/')
}

/// The components of a path.
pub fn path_components(path: &str) -> (kept: Vec<String>)
    ensures
        views(kept@) == components(path@),
{
    let parts: Vec<String> = split(path);
    let mut kept: Vec<String> = Vec::new();
    let mut rooted = false;
    if path.unicode_len() > 0 {
        let first: &str = path.substring_char(0, 1);
        rooted = same_text(first, "/");
        proof {
            reveal_strlit("/");
            assert("/"@ =~= seq!['/']);
            assert(first@ =~= seq![path@[0]]);
            assert((first@ == "/"@) == (path@[0] == '/')) by {
                if first@ == "/"@ {
                    assert(first@[0] == '/');
                }
            }
        }
    }
    let ghost all = pieces(path@);
    if rooted {
        kept.push("/".to_owned());
    }
    proof {
        reveal_strlit("/");
        assert("/"@ =~= seq!['/']);
        assert(views(kept@) =~= kept_pieces(all, rooted, 0));
    }
    let mut index: usize = 0;
    while index < parts.len()
        invariant
            index <= parts@.len(),
            all == views(parts@),
            rooted == is_rooted(path@),
            views(kept@) == kept_pieces(all, rooted, index as int),
        decreases parts@.len() - index,
    {
        let ghost before = views(kept@);
        let empty = parts[index].as_str().unicode_len() == 0;
        let dot = same_text(parts[index].as_str(), ".");
        proof {
            reveal_strlit(".");
            assert("."@ =~= seq!['.']);
            assert(all[index as int] == parts@[index as int]@);
        }
        if !empty && (!dot || (index == 0 && !rooted)) {
            kept.push(parts[index].clone());
            proof {
                assert(views(kept@) =~= before.push(all[index as int]));
            }
        }
        index += 1;
    }
    kept
}

/// The file that a path names, if it names one.
pub open spec fn spec_file_name(path: Seq<char>) -> Option<Seq<char>> {
    let named = components(path);
    if named.len() > 0 && is_file_name(named.last()) {
        Some(named.last())
    } else {
        None
    }
}

fn names_file(component: &str) -> (names: bool)
    ensures
        names == is_file_name(component@),
{
    proof {
        reveal_strlit("/");
        reveal_strlit(".");
        reveal_strlit("..");
        assert("/"@ =~= seq!['/']);
        assert("."@ =~= seq!['.']);
        assert(".."@ =~= seq!['.', '.']);
    }
    !same_text(component, "/") && !same_text(component, ".") && !same_text(component, "..")
}

/// The file that a catalogued path names.
pub fn file_name(path: &String) -> (name: Result<String, HistoryStoreError>)
    ensures
        match name {
            Ok(name) => spec_file_name(path@) == Some(name@),
            Err(error) => spec_file_name(path@) is None && error
                == HistoryStoreError::CatalogIntegrity(CatalogProblem::InvalidSegmentPath(*path)),
        },
{
    let named: Vec<String> = path_components(path.as_str());
    let count: usize = named.len();
    proof {
        assert(views(named@).len() == named@.len());
        if count > 0 {
            assert(views(named@)[count - 1] == named@[count - 1]@);
        }
    }
    if count == 0 || !names_file(named[count - 1].as_str()) {
        return Err(
            HistoryStoreError::CatalogIntegrity(CatalogProblem::InvalidSegmentPath(path.clone())),
        );
    }
    Ok(named[count - 1].clone())
}

/// A name that stays within the directory it is joined to: one component,
/// which names a file.
pub open spec fn is_safe_child(name: Seq<char>) -> bool {
    components(name).len() == 1 && is_file_name(components(name)[0])
}

/// Refuses a catalogued name that could leave the segment directory.
pub fn safe_child(name: &String) -> (outcome: Result<(), HistoryStoreError>)
    ensures
        outcome == (if is_safe_child(name@) {
            Ok::<(), HistoryStoreError>(())
        } else {
            Err(HistoryStoreError::CatalogIntegrity(CatalogProblem::UnsafeName(*name)))
        }),
{
    let named: Vec<String> = path_components(name.as_str());
    proof {
        assert(views(named@).len() == named@.len());
        if named@.len() == 1 {
            assert(views(named@)[0] == named@[0]@);
        }
    }
    if named.len() != 1 || !names_file(named[0].as_str()) {
        return Err(HistoryStoreError::CatalogIntegrity(CatalogProblem::UnsafeName(name.clone())));
    }
    Ok(())
}

/// A path of a segment: a file directly in the segment directory.
pub open spec fn is_segment_path(path: Seq<char>) -> bool {
    let named = components(path);
    named.len() == 2 && named[0] == "segments"@ && is_file_name(named[1])
}

/// Refuses a catalogued path that is not directly in the segment directory.
pub fn resolve_relative_path(relative: &String) -> (outcome: Result<(), HistoryStoreError>)
    ensures
        outcome == (if is_segment_path(relative@) {
            Ok::<(), HistoryStoreError>(())
        } else {
            Err(
                HistoryStoreError::CatalogIntegrity(CatalogProblem::InvalidRelativePath(*relative)),
            )
        }),
{
    let named: Vec<String> = path_components(relative.as_str());
    proof {
        assert(views(named@).len() == named@.len());
        if named@.len() == 2 {
            assert(views(named@)[0] == named@[0]@);
            assert(views(named@)[1] == named@[1]@);
        }
    }
    if named.len() != 2 || !same_text(named[0].as_str(), "segments") || !names_file(
        named[1].as_str(),
    ) {
        return Err(
            HistoryStoreError::CatalogIntegrity(
                CatalogProblem::InvalidRelativePath(relative.clone()),
            ),
        );
    }
    Ok(())
}

/// The name of a segment's records while they are written.
pub fn partial_name(id: &str) -> (name: String)
    ensures
        name@ == id@ + ".partial"@,
{
    joined(id, ".partial")
}

/// The name of a segment's directory while it is written.
pub fn index_name(id: &str) -> (name: String)
    ensures
        name@ == id@ + ".idxpartial"@,
{
    joined(id, ".idxpartial")
}

/// The name of a closed segment.
pub fn final_name(id: &str) -> (name: String)
    ensures
        name@ == id@ + ".idxraw"@,
{
    joined(id, ".idxraw")
}

/// The catalogued path of a closed segment.
pub fn relative_path(final_name: &str) -> (path: String)
    ensures
        path@ == "segments/"@ + final_name@,
{
    joined("segments/", final_name)
}

/// What a file in the segment directory is.
#[derive(Debug)]
pub enum SegmentFile {
    /// Left over from an interrupted write.
    Partial,
    /// A closed segment, with the identifier that its name gives.
    Closed(String),
    Other,
}

/// A name with this extension: something, and then the extension.
pub open spec fn has_extension(name: Seq<char>, extension: Seq<char>) -> bool {
    ends_with(name, extension) && name.len() > extension.len()
}

/// Tells the files of the segment directory apart by their extension.
pub fn segment_file_kind(name: &str) -> (kind: SegmentFile)
    ensures
        match kind {
            SegmentFile::Partial => has_extension(name@, ".partial"@) || has_extension(
                name@,
                ".idxpartial"@,
            ),
            SegmentFile::Closed(id) => {
                &&& !has_extension(name@, ".partial"@) && !has_extension(name@, ".idxpartial"@)
                &&& has_extension(name@, ".idxraw"@)
                &&& name@ == id@ + ".idxraw"@
            },
            SegmentFile::Other => {
                &&& !has_extension(name@, ".partial"@)
                &&& !has_extension(name@, ".idxpartial"@)
                &&& !has_extension(name@, ".idxraw"@)
            },
        },
{
    if let Some(stem) = strip_suffix(name, ".partial") {
        if stem.unicode_len() > 0 {
            return SegmentFile::Partial;
        }
    }
    if let Some(stem) = strip_suffix(name, ".idxpartial") {
        if stem.unicode_len() > 0 {
            return SegmentFile::Partial;
        }
    }
    if let Some(stem) = strip_suffix(name, ".idxraw") {
        if stem.unicode_len() > 0 {
            return SegmentFile::Closed(stem.to_owned());
        }
    }
    SegmentFile::Other
}

/// The name under which a file is set aside; `attempt` counts the names that
/// were taken.
pub open spec fn spec_quarantine_name(name: Seq<char>, valid: bool, attempt: u64) -> Seq<char> {
    let status = if valid {
        ".orphan"@
    } else {
        ".corrupt"@
    };
    if attempt == 0 {
        name + status
    } else {
        name + status + "."@ + decimal_digits(attempt as nat)
    }
}

pub fn quarantine_name(name: &str, valid: bool, attempt: u64) -> (target: String)
    ensures
        target@ == spec_quarantine_name(name@, valid, attempt),
{
    let mut target: String = if valid {
        joined(name, ".orphan")
    } else {
        joined(name, ".corrupt")
    };
    if attempt > 0 {
        target.append(".");
        push_decimal(&mut target, attempt);
    }
    target
}

} // verus!
