//! Where Portboard keeps its state.
use vstd::prelude::*;
use vstd::string::*;
use vstd::utf8::*;

use crate::numbers::{hex_bytes, hex_text};
use crate::path_text::{join_path, joined_path, relative_children_are_put_below};
use crate::portboard_error::{failure, ErrorText, PortboardError};

verus! {

/// A path below another.
pub open spec fn below_path(base: Seq<u8>, child: Seq<char>) -> Seq<u8> {
    joined_path(base, encode_utf8(child))
}

pub fn path_below(base: &[u8], child: &str) -> (result: Vec<u8>)
    ensures
        result@ == below_path(base@, child@),
{
    join_path(base, child.as_bytes())
}

/// The state directory, from the variables that name one: the first that is set counts.
pub open spec fn state_root_of(
    own: Option<Vec<u8>>,
    shared: Option<Vec<u8>>,
    home: Option<Vec<u8>>,
) -> Result<Seq<u8>, ErrorText> {
    match (own, shared, home) {
        (Some(path), _, _) => Ok(path@),
        (None, Some(path), _) => Ok(below_path(path@, "portboard"@)),
        (None, None, Some(path)) => Ok(below_path(path@, ".local/state/portboard"@)),
        (None, None, None) => Err(
            failure(
                "Portboard needs HOME, XDG_STATE_HOME, or PORTBOARD_STATE_DIR for state"@,
            ),
        ),
    }
}

/// What a path that may be missing is.
pub open spec fn path_result(result: Result<Vec<u8>, PortboardError>) -> Result<
    Seq<u8>,
    ErrorText,
> {
    match result {
        Ok(path) => Ok(path@),
        Err(error) => Err(error@),
    }
}

/// Resolves Portboard's user state directory, from `PORTBOARD_STATE_DIR`, `XDG_STATE_HOME` and
/// `HOME`.
pub fn state_root(own: Option<Vec<u8>>, shared: Option<Vec<u8>>, home: Option<Vec<u8>>) -> (result:
    Result<Vec<u8>, PortboardError>)
    ensures
        path_result(result) == state_root_of(own, shared, home),
{
    match (own, shared, home) {
        (Some(path), _, _) => Ok(path),
        (None, Some(path), _) => Ok(path_below(path.as_slice(), "portboard")),
        (None, None, Some(path)) => Ok(path_below(path.as_slice(), ".local/state/portboard")),
        (None, None, None) => Err(
            PortboardError::new(
                "Portboard needs HOME, XDG_STATE_HOME, or PORTBOARD_STATE_DIR for state".to_owned(),
            ),
        ),
    }
}

/// The SHA-256 digest of some bytes.
pub uninterp spec fn sha256_of(bytes: Seq<u8>) -> Seq<u8>;

/// `Digest::digest` of the `sha2` crate for `Sha256`: thirty-two bytes, a function of the input
/// alone. Which bytes has only a name here.
#[verifier::external_body]
pub(crate) fn sha256(bytes: &[u8]) -> (result: Vec<u8>)
    ensures
        result@ == sha256_of(bytes@),
        result@.len() == 32,
{
    <sha2::Sha256 as sha2::Digest>::digest(bytes).to_vec()
}

/// The state directory that belongs to a digest.
pub open spec fn digest_directory(state_root: Seq<u8>, digest: Seq<u8>) -> Seq<u8> {
    below_path(below_path(state_root, "worktrees"@), hex_bytes(digest))
}

/// The state directory that belongs to a digest.
pub fn directory_for_digest(state_root: &[u8], digest: &[u8]) -> (result: Vec<u8>)
    ensures
        result@ == digest_directory(state_root@, digest@),
{
    let worktrees = path_below(state_root, "worktrees");
    let identity = hex_text(digest);
    path_below(worktrees.as_slice(), identity.as_str())
}

/// Returns a stable, non-revealing state directory for one exact worktree path.
pub fn worktree_state_directory(state_root: &[u8], worktree_root: &[u8]) -> (result: Vec<u8>)
    ensures
        result@ == digest_directory(state_root@, sha256_of(worktree_root@)),
{
    let digest = sha256(worktree_root);
    directory_for_digest(state_root, digest.as_slice())
}

/// Worktrees whose digests differ have different state directories.
pub proof fn directories_tell_digests_apart(state_root: Seq<u8>, left: Seq<u8>, right: Seq<u8>)
    requires
        digest_directory(state_root, left) == digest_directory(state_root, right),
    ensures
        left == right,
{
    let base = below_path(state_root, "worktrees"@);
    lemma_hex_is_relative(left);
    lemma_hex_is_relative(right);
    let first = encode_utf8(hex_bytes(left));
    let second = encode_utf8(hex_bytes(right));
    lemma_same_tail(base, first, second);
    encode_utf8_decode_utf8(hex_bytes(left));
    encode_utf8_decode_utf8(hex_bytes(right));
    crate::numbers::hex_bytes_injective(left, right);
}

proof fn lemma_same_tail(base: Seq<u8>, first: Seq<u8>, second: Seq<u8>)
    requires
        joined_path(base, first) == joined_path(base, second),
        first.len() > 0 ==> first[0] != 0x2F,
        second.len() > 0 ==> second[0] != 0x2F,
    ensures
        first == second,
{
    let path = joined_path(base, first);
    let from = if base.len() > 0 && base.last() != 0x2F {
        base.len() + 1
    } else {
        base.len()
    };
    assert(path.skip(from as int) =~= first);
    assert(joined_path(base, second).skip(from as int) =~= second);
}

/// Hexadecimal text names no absolute path.
proof fn lemma_hex_is_relative(bytes: Seq<u8>)
    ensures
        encode_utf8(hex_bytes(bytes)).len() > 0 ==> encode_utf8(hex_bytes(bytes))[0] != 0x2F,
{
    let text = hex_bytes(bytes);
    crate::numbers::lemma_hex_digits(bytes);
    assert forall|i: int| 0 <= i < text.len() implies '\0' <= #[trigger] text[i]
        <= '\u{7f}' by {
        char_is_scalar(text[i]);
        char_u32_cast(text[i], text[i] as u32);
    }
    is_ascii_chars_encode_utf8(text);
}

/// The state lies where the variable of its own says, else in the directory of its name below the
/// shared one, else below the home directory; without any of them there is none.
pub proof fn state_lies_where_the_first_variable_says(
    path: Vec<u8>,
    shared: Option<Vec<u8>>,
    home: Option<Vec<u8>>,
)
    requires
        path@.len() > 0,
        path@.last() != 0x2Fu8,
    ensures
        state_root_of(Some(path), shared, home) == Ok::<_, ErrorText>(path@),
        state_root_of(None, Some(path), home) == Ok::<_, ErrorText>(
            path@ + seq![0x2Fu8] + encode_utf8("portboard"@),
        ),
        state_root_of(None, None, Some(path)) == Ok::<_, ErrorText>(
            path@ + seq![0x2Fu8] + encode_utf8(".local/state/portboard"@),
        ),
        state_root_of(None, None, None) is Err,
{
    reveal_strlit("portboard");
    reveal_strlit(".local/state/portboard");
    let child = encode_utf8("portboard"@);
    let below_home = encode_utf8(".local/state/portboard"@);
    lemma_relative("portboard"@);
    lemma_relative(".local/state/portboard"@);
    relative_children_are_put_below(path@, child);
    relative_children_are_put_below(path@, below_home);
}

proof fn lemma_relative(child: Seq<char>)
    requires
        child.len() > 0,
        forall|i: int| 0 <= i < child.len() ==> '\0' <= #[trigger] child[i] <= '\u{7f}',
        child[0] != '/',
    ensures
        encode_utf8(child).len() > 0,
        encode_utf8(child)[0] != 0x2Fu8,
{
    is_ascii_chars_encode_utf8(child);
    char_is_scalar(child[0]);
    char_u32_cast(child[0], child[0] as u32);
}

} // verus!
