//! File paths as text.

use vstd::prelude::*;
use vstd::string::*;

use crate::text::{begins_with, finishes_with, same_text, split, split_at_char};

verus! {

/// A path within a directory. An absolute path stays as it is.
pub open spec fn joined_path(base: Seq<char>, path: Seq<char>) -> Seq<char> {
    if "/"@.is_prefix_of(path) || base.len() == 0 {
        path
    } else if "/"@.is_suffix_of(base) {
        base + path
    } else {
        base + "/"@ + path
    }
}

/// A path within a directory. An absolute path stays as it is.
pub fn join_path(base: &str, path: &str) -> (out: String)
    ensures
        out@ == joined_path(base@, path@),
{
    if begins_with(path, "/") || base.is_empty() {
        path.to_owned()
    } else if finishes_with(base, "/") {
        base.to_owned().concat(path)
    } else {
        base.to_owned().concat("/").concat(path)
    }
}

/// The parts that lead somewhere: neither empty nor a single dot.
pub open spec fn named_parts(parts: Seq<Seq<char>>) -> Seq<Seq<char>>
    decreases parts.len(),
{
    if parts.len() == 0 {
        Seq::empty()
    } else {
        let before = named_parts(parts.drop_last());
        if parts.last().len() == 0 || parts.last() == "."@ {
            before
        } else {
            before.push(parts.last())
        }
    }
}

/// The components of a path: its root where it is absolute, or the dot that it
/// begins with, and then every part that leads somewhere.
pub open spec fn path_components(path: Seq<char>) -> Seq<Seq<char>> {
    let parts = split(path, '/');
    let head = if "/"@.is_prefix_of(path) {
        seq!["/"@]
    } else if parts[0] == "."@ {
        seq!["."@]
    } else {
        seq![]
    };
    head + named_parts(parts)
}

/// The components of a path.
pub fn components(path: &str) -> (out: Vec<String>)
    ensures
        out.deep_view() == path_components(path@),
{
    let parts = split_at_char(path, '/');
    let ghost all = parts.deep_view();
    let mut out: Vec<String> = Vec::new();
    proof {
        assert(all[0] == parts@[0]@);
    }
    if begins_with(path, "/") {
        out.push("/".to_owned());
    } else if same_text(parts[0].as_str(), ".") {
        out.push(".".to_owned());
    }
    let ghost head = out.deep_view();
    proof {
        assert(head =~= (if "/"@.is_prefix_of(path@) {
            seq!["/"@]
        } else if all[0] == "."@ {
            seq!["."@]
        } else {
            seq![]
        }));
        assert(head + named_parts(all.take(0)) =~= head);
    }
    let mut i: usize = 0;
    while i < parts.len()
        invariant
            i <= parts@.len(),
            all == parts.deep_view(),
            out.deep_view() == head + named_parts(all.take(i as int)),
        decreases parts@.len() - i,
    {
        let ghost before = out.deep_view();
        proof {
            assert(all.take(i as int + 1).drop_last() =~= all.take(i as int));
            assert(all[i as int] == parts@[i as int]@);
        }
        let part = parts[i].as_str();
        if !part.is_empty() && !same_text(part, ".") {
            out.push(parts[i].clone());
            proof {
                assert(out.deep_view() =~= before.push(all[i as int]));
                assert(out.deep_view() =~= head + named_parts(all.take(i as int + 1)));
            }
        }
        i += 1;
    }
    proof {
        assert(all.take(all.len() as int) =~= all);
    }
    out
}

/// Whether a path is a directory or lies in it, component by component.
pub open spec fn lies_in(path: Seq<char>, root: Seq<char>) -> bool {
    path_components(root).is_prefix_of(path_components(path))
}

/// Whether components begin with others.
pub fn leads_through(path: &Vec<String>, root: &Vec<String>) -> (yes: bool)
    ensures
        yes == root.deep_view().is_prefix_of(path.deep_view()),
{
    let ghost long = path.deep_view();
    let ghost short = root.deep_view();
    if root.len() > path.len() {
        return false;
    }
    let mut i: usize = 0;
    while i < root.len()
        invariant
            i <= root@.len() <= path@.len(),
            long == path.deep_view(),
            short == root.deep_view(),
            forall|k: int| 0 <= k < i ==> #[trigger] short[k] == long[k],
        decreases root@.len() - i,
    {
        proof {
            assert(short[i as int] == root@[i as int]@ && long[i as int] == path@[i as int]@);
        }
        if !same_text(root[i].as_str(), path[i].as_str()) {
            proof {
                assert(short.is_prefix_of(long) ==> short[i as int] == long.subrange(
                    0,
                    short.len() as int,
                )[i as int]);
            }
            return false;
        }
        i += 1;
    }
    proof {
        assert(short =~= long.subrange(0, short.len() as int));
    }
    true
}

/// A relative path lies in the directory: it begins with the directory and ends with the
/// path. An absolute path is what it is, wherever it is taken from.
pub proof fn path_lies_in_its_directory(base: Seq<char>, path: Seq<char>)
    requires
        base.len() > 0,
    ensures
        "/"@.is_prefix_of(path) ==> joined_path(base, path) == path,
        !"/"@.is_prefix_of(path) ==> {
            let out = joined_path(base, path);
            &&& base.is_prefix_of(out)
            &&& path.is_suffix_of(out)
            &&& base.last() != '/' ==> out.len() == base.len() + 1 + path.len() && out[
                base.len() as int] == '/'
            &&& base.last() == '/' ==> out.len() == base.len() + path.len()
        },
{
    reveal_strlit("/");
    let out = joined_path(base, path);
    assert("/"@.len() == 1 && "/"@[0] == '/');
    if !"/"@.is_prefix_of(path) {
        assert(out.subrange(0, base.len() as int) =~= base);
        assert(out.subrange(out.len() - path.len(), out.len() as int) =~= path);
        let end = base.subrange(base.len() - 1, base.len() as int);
        assert(end.len() == 1 && end[0] == base.last());
        if base.last() == '/' {
            assert(end =~= "/"@);
        }
    }
}

/// Empty parts and single dots lead nowhere; every other part is kept, in its place.
pub proof fn parts_that_lead_somewhere_are_kept(parts: Seq<Seq<char>>, part: Seq<char>)
    ensures
        part.len() == 0 || part == "."@ ==> named_parts(parts.push(part)) == named_parts(parts),
        part.len() > 0 && part != "."@ ==> named_parts(parts.push(part)) == named_parts(
            parts,
        ).push(part),
{
    assert(parts.push(part).drop_last() =~= parts);
}

} // verus!
