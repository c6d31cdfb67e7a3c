//! The root of the Git worktree that a directory belongs to.
use vstd::prelude::*;
use vstd::string::*;

use crate::portboard_error::{failure, ErrorText, PortboardError};
use crate::state_paths::path_result;

verus! {

/// Bytes without one at their end.
pub open spec fn without_last(bytes: Seq<u8>, last: u8) -> Seq<u8> {
    if bytes.len() > 0 && bytes.last() == last {
        bytes.drop_last()
    } else {
        bytes
    }
}

/// What `git rev-parse` printed, without the line end. Only that is removed:
/// trimming text would corrupt valid repository names ending in
/// whitespace, and decoding as UTF-8 would reject valid Linux paths.
pub open spec fn printed_path(output: Seq<u8>) -> Seq<u8> {
    without_last(without_last(output, 0x0A), 0x0D)
}

/// The root that `git rev-parse --show-toplevel` names in a directory, where it succeeded.
pub open spec fn root_in_output(
    succeeded: bool,
    output: Seq<u8>,
    directory: Seq<char>,
) -> Result<Seq<u8>, ErrorText> {
    if succeeded {
        Ok(printed_path(output))
    } else {
        Err(
            failure(
                "Portboard workspace "@ + directory + " is not inside a Git worktree"@,
            ),
        )
    }
}

/// Resolves a workspace directory to the root of its current Git worktree, from what
/// `git rev-parse --show-toplevel` printed there.
pub fn resolve_current_worktree(succeeded: bool, output: Vec<u8>, directory: &str) -> (result:
    Result<Vec<u8>, PortboardError>)
    ensures
        path_result(result) == root_in_output(succeeded, output@, directory@),
{
    if !succeeded {
        let mut message = "Portboard workspace ".to_owned();
        message.append(directory);
        message.append(" is not inside a Git worktree");
        return Err(PortboardError::new(message));
    }
    let mut root = output;
    if root.len() > 0 && root[root.len() - 1] == 0x0A {
        let _ = root.pop();
    }
    if root.len() > 0 && root[root.len() - 1] == 0x0D {
        let _ = root.pop();
    }
    proof {
        assert(root@ =~= printed_path(output@));
    }
    Ok(root)
}

/// A path is found again behind the line end that follows it, whatever bytes it holds before
/// its own end.
pub proof fn printed_paths_are_kept(path: Seq<u8>)
    requires
        path.len() > 0 ==> path.last() != 0x0D,
    ensures
        printed_path(path.push(0x0A)) == path,
{
    assert(path.push(0x0A).drop_last() =~= path);
}

/// The root of a worktree is the path that was printed, without the line end behind it in either
/// form; where the command failed there is none.
pub proof fn roots_are_printed_on_a_line(path: Seq<u8>, directory: Seq<char>)
    requires
        path.len() > 0 ==> path.last() != 0x0D && path.last() != 0x0A,
    ensures
        root_in_output(true, path, directory) == Ok::<_, ErrorText>(path),
        root_in_output(true, path.push(0x0A), directory) == Ok::<_, ErrorText>(path),
        root_in_output(true, path.push(0x0D).push(0x0A), directory) == Ok::<_, ErrorText>(path),
        root_in_output(false, path, directory) is Err,
{
    assert(path.push(0x0A).drop_last() =~= path);
    assert(path.push(0x0D).push(0x0A).drop_last() =~= path.push(0x0D));
    assert(path.push(0x0D).drop_last() =~= path);
}

} // verus!
