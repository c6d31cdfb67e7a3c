//! Unix paths as rows of bytes or characters.
use vstd::prelude::*;
use vstd::string::*;

use crate::text::{
    characters, copy_range, is_text, lemma_pieces_nonempty, only, pieces, pieces_at,
    pieces_part_at_separators, rows, same_characters, split_at_each, split_bytes_at,
};

verus! {

/// The name of the current directory.
pub open spec fn this_directory<T>(dot: T) -> Seq<T> {
    seq![dot]
}

/// What counts among the pieces of a path: neither an empty piece nor the current directory.
pub open spec fn counts<T>(dot: T) -> spec_fn(Seq<T>) -> bool {
    |piece: Seq<T>| piece.len() > 0 && piece != this_directory(dot)
}

/// The components of a path: the root of an absolute path as one separator, a leading current
/// directory, then every piece that is neither empty nor the current directory.
pub open spec fn components<T>(path: Seq<T>, separator: T, dot: T) -> Seq<Seq<T>> {
    let all = pieces_at(path, separator);
    let root = if path.len() > 0 && path[0] == separator {
        seq![seq![separator]]
    } else {
        Seq::<Seq<T>>::empty()
    };
    let lead = if all[0] == this_directory(dot) {
        seq![this_directory(dot)]
    } else {
        Seq::<Seq<T>>::empty()
    };
    root + lead + all.filter(counts(dot))
}

pub open spec fn byte_components(path: Seq<u8>) -> Seq<Seq<u8>> {
    components(path, 0x2Fu8, 0x2Eu8)
}

pub open spec fn text_components(path: Seq<char>) -> Seq<Seq<char>> {
    components(path, '/', '.')
}

/// Whether the components of `base` are the first ones of `path`.
pub open spec fn lies_below(path: Seq<u8>, base: Seq<u8>) -> bool {
    byte_components(base).is_prefix_of(byte_components(path))
}

/// Whether the components of `tail` are the last ones of `path`.
pub open spec fn path_ends_with(path: Seq<char>, tail: Seq<char>) -> bool {
    text_components(tail).is_suffix_of(text_components(path))
}

/// The last component of a path, where it is a name.
pub open spec fn file_name_of(path: Seq<char>) -> Option<Seq<char>> {
    let all = text_components(path);
    if all.len() == 0 || all.last() == seq!['/'] || all.last() == seq!['.'] || all.last() == seq![
        '.',
        '.',
    ] {
        None
    } else {
        Some(all.last())
    }
}

/// A path below a directory; an absolute path stands by itself.
pub open spec fn joined_path(base: Seq<u8>, child: Seq<u8>) -> Seq<u8> {
    if child.len() > 0 && child[0] == 0x2F {
        child
    } else if base.len() > 0 && base.last() != 0x2F {
        base.push(0x2F) + child
    } else {
        base + child
    }
}

/// Whether two rows of bytes are the same.
pub fn same_bytes(left: &[u8], right: &[u8]) -> (result: bool)
    ensures
        result == (left@ == right@),
{
    if left.len() != right.len() {
        return false;
    }
    let mut index: usize = 0;
    while index < left.len()
        invariant
            index <= left.len(),
            left.len() == right.len(),
            forall|i: int| 0 <= i < index ==> #[trigger] left@[i] == right@[i],
        decreases left.len() - index,
    {
        if left[index] != right[index] {
            return false;
        }
        index += 1;
    }
    proof {
        assert(left@ =~= right@);
    }
    true
}

fn is_dot_bytes(piece: &[u8]) -> (result: bool)
    ensures
        result == (piece@ == this_directory(0x2Eu8)),
{
    let result = piece.len() == 1 && piece[0] == 0x2E;
    proof {
        if result {
            assert(piece@ =~= this_directory(0x2Eu8));
        }
    }
    result
}

/// The components of a path of bytes.
pub fn split_byte_path(path: &[u8]) -> (result: Vec<Vec<u8>>)
    ensures
        rows(result@) == byte_components(path@),
{
    let all = split_bytes_at(path, 0x2F);
    let ghost wanted = counts(0x2Eu8);
    let mut result: Vec<Vec<u8>> = Vec::new();
    let ghost root = if path@.len() > 0 && path@[0] == 0x2F {
        seq![seq![0x2Fu8]]
    } else {
        Seq::<Seq<u8>>::empty()
    };
    if path.len() > 0 && path[0] == 0x2F {
        let name: Vec<u8> = vec![0x2F];
        proof {
            assert(name@ =~= seq![0x2Fu8]);
        }
        result.push(name);
    }
    proof {
        assert(rows(result@) =~= root);
    }
    let ghost lead = if rows(all@)[0] == this_directory(0x2Eu8) {
        seq![this_directory(0x2Eu8)]
    } else {
        Seq::<Seq<u8>>::empty()
    };
    if is_dot_bytes(all[0].as_slice()) {
        let name: Vec<u8> = vec![0x2E];
        proof {
            assert(name@ =~= this_directory(0x2Eu8));
        }
        result.push(name);
    }
    proof {
        assert(rows(result@) =~= root + lead);
    }
    let ghost start = rows(result@);
    let mut index: usize = 0;
    proof {
        assert(rows(all@).take(0).filter(wanted) =~= Seq::<Seq<u8>>::empty()) by {
            reveal(Seq::filter);
        }
        assert(start + Seq::<Seq<u8>>::empty() =~= start);
    }
    while index < all.len()
        invariant
            index <= all.len(),
            wanted == counts(0x2Eu8),
            rows(result@) == start + rows(all@).take(index as int).filter(wanted),
        decreases all.len() - index,
    {
        let ghost before = rows(result@);
        let ghost piece = rows(all@)[index as int];
        proof {
            assert(rows(all@).take(index + 1) =~= rows(all@).take(index as int).push(piece));
            rows(all@).take(index as int).lemma_filter_push(piece, wanted);
        }
        if all[index].len() > 0 && !is_dot_bytes(all[index].as_slice()) {
            let name = copy_range(all[index].as_slice(), 0, all[index].len());
            proof {
                assert(name@ =~= piece);
            }
            result.push(name);
            proof {
                assert(rows(result@) =~= before.push(piece));
                assert(before.push(piece) =~= start + rows(all@).take(index as int).filter(
                    wanted,
                ).push(piece));
            }
        }
        index += 1;
    }
    proof {
        assert(rows(all@).take(all.len() as int) =~= rows(all@));
    }
    result
}

/// The components of a path of characters.
pub fn split_text_path(path: &[char]) -> (result: Vec<Vec<char>>)
    ensures
        rows(result@) == text_components(path@),
{
    let all = split_at_each(path, '/');
    let ghost wanted = counts('.');
    let mut result: Vec<Vec<char>> = Vec::new();
    let ghost root = if path@.len() > 0 && path@[0] == '/' {
        seq![seq!['/']]
    } else {
        Seq::<Seq<char>>::empty()
    };
    if path.len() > 0 && path[0] == '/' {
        let name: Vec<char> = vec!['/'];
        proof {
            assert(name@ =~= seq!['/']);
        }
        result.push(name);
    }
    proof {
        assert(rows(result@) =~= root);
    }
    let ghost lead = if rows(all@)[0] == this_directory('.') {
        seq![this_directory('.')]
    } else {
        Seq::<Seq<char>>::empty()
    };
    if is_dot_text(all[0].as_slice()) {
        let name: Vec<char> = vec!['.'];
        proof {
            assert(name@ =~= this_directory('.'));
        }
        result.push(name);
    }
    proof {
        assert(rows(result@) =~= root + lead);
    }
    let ghost start = rows(result@);
    let mut index: usize = 0;
    proof {
        assert(rows(all@).take(0).filter(wanted) =~= Seq::<Seq<char>>::empty()) by {
            reveal(Seq::filter);
        }
        assert(start + Seq::<Seq<char>>::empty() =~= start);
    }
    while index < all.len()
        invariant
            index <= all.len(),
            wanted == counts('.'),
            rows(result@) == start + rows(all@).take(index as int).filter(wanted),
        decreases all.len() - index,
    {
        let ghost before = rows(result@);
        let ghost piece = rows(all@)[index as int];
        proof {
            assert(rows(all@).take(index + 1) =~= rows(all@).take(index as int).push(piece));
            rows(all@).take(index as int).lemma_filter_push(piece, wanted);
        }
        if all[index].len() > 0 && !is_dot_text(all[index].as_slice()) {
            let name = copy_range(all[index].as_slice(), 0, all[index].len());
            proof {
                assert(name@ =~= piece);
            }
            result.push(name);
            proof {
                assert(rows(result@) =~= before.push(piece));
                assert(before.push(piece) =~= start + rows(all@).take(index as int).filter(
                    wanted,
                ).push(piece));
            }
        }
        index += 1;
    }
    proof {
        assert(rows(all@).take(all.len() as int) =~= rows(all@));
    }
    result
}

fn is_dot_text(piece: &[char]) -> (result: bool)
    ensures
        result == (piece@ == this_directory('.')),
{
    let result = piece.len() == 1 && piece[0] == '.';
    proof {
        if result {
            assert(piece@ =~= this_directory('.'));
        }
    }
    result
}

/// `Path::starts_with` on Unix.
pub fn below(path: &[u8], base: &[u8]) -> (result: bool)
    ensures
        result == lies_below(path@, base@),
{
    let whole = split_byte_path(path);
    let start = split_byte_path(base);
    if start.len() > whole.len() {
        return false;
    }
    let mut index: usize = 0;
    while index < start.len()
        invariant
            index <= start.len() <= whole.len(),
            rows(whole@) == byte_components(path@),
            rows(start@) == byte_components(base@),
            forall|i: int| 0 <= i < index ==> #[trigger] rows(start@)[i] == rows(whole@)[i],
        decreases start.len() - index,
    {
        if !same_bytes(start[index].as_slice(), whole[index].as_slice()) {
            proof {
                assert(rows(start@)[index as int] != rows(whole@).subrange(
                    0,
                    start.len() as int,
                )[index as int]);
            }
            return false;
        }
        index += 1;
    }
    proof {
        assert(rows(start@) =~= rows(whole@).subrange(0, start.len() as int));
    }
    true
}

/// `==` on paths: whether they have the same components.
pub fn same_path(left: &[u8], right: &[u8]) -> (result: bool)
    ensures
        result == (byte_components(left@) == byte_components(right@)),
{
    let first = split_byte_path(left);
    let second = split_byte_path(right);
    if first.len() != second.len() {
        proof {
            assert(rows(first@).len() != rows(second@).len());
        }
        return false;
    }
    let mut index: usize = 0;
    while index < first.len()
        invariant
            index <= first.len() == second.len(),
            rows(first@) == byte_components(left@),
            rows(second@) == byte_components(right@),
            forall|i: int| 0 <= i < index ==> #[trigger] rows(first@)[i] == rows(second@)[i],
        decreases first.len() - index,
    {
        if !same_bytes(first[index].as_slice(), second[index].as_slice()) {
            proof {
                assert(rows(first@)[index as int] != rows(second@)[index as int]);
            }
            return false;
        }
        index += 1;
    }
    proof {
        assert(rows(first@) =~= rows(second@));
    }
    true
}

/// `Path::ends_with` on Unix.
pub fn ends_with_path(path: &str, tail: &str) -> (result: bool)
    ensures
        result == path_ends_with(path@, tail@),
{
    let source = characters(path);
    let wanted = characters(tail);
    let whole = split_text_path(source.as_slice());
    let end = split_text_path(wanted.as_slice());
    if end.len() > whole.len() {
        return false;
    }
    let offset: usize = whole.len() - end.len();
    let mut index: usize = 0;
    while index < end.len()
        invariant
            index <= end.len() <= whole.len(),
            offset == whole.len() - end.len(),
            rows(whole@) == text_components(path@),
            rows(end@) == text_components(tail@),
            forall|i: int|
                0 <= i < index ==> #[trigger] rows(end@)[i] == rows(whole@)[i + offset],
        decreases end.len() - index,
    {
        if !same_characters(end[index].as_slice(), whole[offset + index].as_slice()) {
            proof {
                assert(rows(end@)[index as int] != rows(whole@).subrange(
                    offset as int,
                    whole.len() as int,
                )[index as int]);
            }
            return false;
        }
        index += 1;
    }
    proof {
        assert(rows(end@) =~= rows(whole@).subrange(offset as int, whole.len() as int));
    }
    true
}

/// `Path::file_name` on Unix.
pub fn file_name(path: &str) -> (result: Option<Vec<char>>)
    ensures
        match (result, file_name_of(path@)) {
            (Some(name), Some(expected)) => name@ == expected,
            (None, None) => true,
            _ => false,
        },
{
    let source = characters(path);
    let all = split_text_path(source.as_slice());
    proof {
        reveal_strlit("/");
        reveal_strlit(".");
        reveal_strlit("..");
        assert("/"@ =~= seq!['/']);
        assert("."@ =~= seq!['.']);
        assert(".."@ =~= seq!['.', '.']);
    }
    if all.len() == 0 {
        return None;
    }
    let last = &all[all.len() - 1];
    proof {
        assert(rows(all@).last() == last@);
    }
    if is_text(last.as_slice(), "/") || is_text(last.as_slice(), ".") || is_text(
        last.as_slice(),
        "..",
    ) {
        None
    } else {
        let name = copy_range(last.as_slice(), 0, last.len());
        proof {
            assert(name@ =~= last@);
        }
        Some(name)
    }
}

/// `Path::join` on Unix.
pub fn join_path(base: &[u8], child: &[u8]) -> (result: Vec<u8>)
    ensures
        result@ == joined_path(base@, child@),
{
    let mut result: Vec<u8> = Vec::new();
    if child.len() > 0 && child[0] == 0x2F {
        result = copy_range(child, 0, child.len());
        proof {
            assert(result@ =~= child@);
        }
        return result;
    }
    result = copy_range(base, 0, base.len());
    proof {
        assert(result@ =~= base@);
    }
    if base.len() > 0 && base[base.len() - 1] != 0x2F {
        result.push(0x2F);
    }
    let ghost start = result@;
    let mut index: usize = 0;
    proof {
        assert(start + child@.take(0) =~= start);
    }
    while index < child.len()
        invariant
            index <= child.len(),
            result@ == start + child@.take(index as int),
        decreases child.len() - index,
    {
        result.push(child[index]);
        index += 1;
        proof {
            assert(child@.take(index as int) =~= child@.take(index - 1).push(child@[index - 1]));
            assert(result@ =~= start + child@.take(index as int));
        }
    }
    proof {
        assert(child@.take(child@.len() as int) =~= child@);
    }
    result
}

/// What a child adds to the components of a directory is each of its pieces that is neither empty
/// nor the current directory.
pub proof fn children_add_their_components<T>(base: Seq<T>, child: Seq<T>, separator: T, dot: T)
    requires
        base.len() > 0,
    ensures
        components(base + seq![separator] + child, separator, dot) == components(
            base,
            separator,
            dot,
        ) + pieces_at(child, separator).filter(counts(dot)),
{
    let whole = base + seq![separator] + child;
    pieces_part_at_separators(base, separator, child, only(separator));
    lemma_pieces_nonempty(base, only(separator));
    let ahead = pieces_at(base, separator);
    let behind = pieces_at(child, separator);
    assert(pieces_at(whole, separator) == ahead + behind);
    assert((ahead + behind)[0] == ahead[0]);
    assert(whole[0] == base[0]);
    Seq::filter_distributes_over_add(ahead, behind, counts(dot));
    assert(components(whole, separator, dot) =~= components(base, separator, dot) + behind.filter(
        counts(dot),
    ));
}

/// A name is a single component, and stands last in any directory.
pub proof fn names_are_components<T>(base: Seq<T>, name: Seq<T>, separator: T, dot: T)
    requires
        name.len() > 0,
        !name.contains(separator),
        name != seq![dot],
    ensures
        components(name, separator, dot) == seq![name],
        base.len() > 0 ==> components(base + seq![separator] + name, separator, dot) == components(
            base,
            separator,
            dot,
        ).push(name),
{
    lemma_single_piece(name, separator);
    let only_piece = seq![name];
    reveal_with_fuel(Seq::filter, 2);
    assert(only_piece.drop_last() =~= Seq::<Seq<T>>::empty());
    assert(only_piece.filter(counts(dot)) =~= seq![name]) by {
        assert(only_piece.last() == name);
        assert(counts(dot)(name));
    }
    assert(name.contains(name[0]));
    assert(components(name, separator, dot) =~= seq![name]);
    if base.len() > 0 {
        children_add_their_components(base, name, separator, dot);
        assert(components(base, separator, dot) + seq![name] =~= components(
            base,
            separator,
            dot,
        ).push(name));
    }
}

proof fn lemma_single_piece<T>(name: Seq<T>, separator: T)
    requires
        !name.contains(separator),
    ensures
        pieces_at(name, separator) == seq![name],
{
    assert forall|i: int| 0 <= i < name.len() implies !only(separator)(#[trigger] name[i]) by {
        assert(name.contains(name[i]));
    }
    pieces_part_at_separators(name, separator, Seq::empty(), only(separator));
}

/// Everything in a directory lies below it, and so does the directory itself; what lies below
/// something below it does too.
pub proof fn contents_lie_below(base: Seq<u8>, child: Seq<u8>, path: Seq<u8>)
    requires
        base.len() > 0,
    ensures
        lies_below(base, base),
        lies_below(base + seq![0x2Fu8] + child, base),
        lies_below(path, base + seq![0x2Fu8] + child) ==> lies_below(path, base),
{
    children_add_their_components(base, child, 0x2Fu8, 0x2Eu8);
    let outer = byte_components(base);
    let inner = byte_components(base + seq![0x2Fu8] + child);
    assert(outer =~= inner.subrange(0, outer.len() as int));
    assert(outer =~= outer.subrange(0, outer.len() as int));
    if inner.is_prefix_of(byte_components(path)) {
        let all = byte_components(path);
        assert(inner =~= all.subrange(0, inner.len() as int));
        assert(outer =~= all.subrange(0, outer.len() as int));
    }
}

/// A neighbor whose name only begins like that of a directory does not lie below it.
pub proof fn neighbors_do_not_lie_below(parent: Seq<u8>, name: Seq<u8>, more: Seq<u8>)
    requires
        parent.len() > 0,
        name.len() > 0,
        more.len() > 0,
        !name.contains(0x2Fu8),
        !more.contains(0x2Fu8),
        name != seq![0x2Eu8],
        name + more != seq![0x2Eu8],
    ensures
        !lies_below(parent + seq![0x2Fu8] + (name + more), parent + seq![0x2Fu8] + name),
{
    names_are_components(parent, name, 0x2Fu8, 0x2Eu8);
    let longer = name + more;
    if longer.contains(0x2Fu8) {
        let at = choose|at: int| 0 <= at < longer.len() && longer[at] == 0x2Fu8;
        if at < name.len() {
            assert(name[at] == 0x2Fu8);
        } else {
            assert(more[at - name.len()] == 0x2Fu8);
        }
    }
    names_are_components(parent, longer, 0x2Fu8, 0x2Eu8);
    let here = byte_components(parent + seq![0x2Fu8] + name);
    let there = byte_components(parent + seq![0x2Fu8] + longer);
    if here.is_prefix_of(there) {
        assert(here.last() == there[here.len() - 1]);
        assert(name.len() == longer.len());
    }
}

/// A path ends with a name exactly where the name is its last step: a longer name that only ends
/// alike does not count, and the directory does not matter.
pub proof fn paths_end_with_their_last_name(
    directory: Seq<char>,
    prefix: Seq<char>,
    name: Seq<char>,
)
    requires
        directory.len() > 0,
        name.len() > 0,
        !name.contains('/'),
        name != seq!['.'],
        prefix.len() > 0,
        !prefix.contains('/'),
    ensures
        path_ends_with(name, name),
        path_ends_with(directory + seq!['/'] + name, name),
        !path_ends_with(prefix + name, name),
        !path_ends_with(directory + seq!['/'] + (prefix + name), name),
{
    names_are_components(directory, name, '/', '.');
    let longer = prefix + name;
    if longer.contains('/') {
        let at = choose|at: int| 0 <= at < longer.len() && longer[at] == '/';
        if at < prefix.len() {
            assert(prefix[at] == '/');
        } else {
            assert(name[at - prefix.len()] == '/');
        }
    }
    names_are_components(directory, longer, '/', '.');
    let tail = text_components(name);
    let whole = text_components(directory + seq!['/'] + name);
    assert(tail =~= tail.subrange(0, tail.len() as int));
    assert(tail =~= whole.subrange(whole.len() - 1, whole.len() as int));
    let other = text_components(longer);
    let far = text_components(directory + seq!['/'] + longer);
    assert(tail[0] == name && other[0] == longer && far.last() == longer);
    if tail.is_suffix_of(other) {
        assert(tail[0] == other[other.len() - 1]);
    }
    if tail.is_suffix_of(far) {
        assert(tail[0] == far[far.len() - 1]);
    }
}

/// The last step of a path is its file name, unless it is one of the two that only lead about.
pub proof fn file_names_stand_last(directory: Seq<char>, name: Seq<char>)
    requires
        directory.len() > 0,
        name.len() > 0,
        !name.contains('/'),
        name != seq!['.'],
        name != seq!['.', '.'],
    ensures
        file_name_of(name) == Some(name),
        file_name_of(directory + seq!['/'] + name) == Some(name),
{
    names_are_components(directory, name, '/', '.');
    assert(name != seq!['/']) by {
        if name == seq!['/'] {
            assert(name[0] == '/');
        }
    }
}

/// A path below a directory is the child itself where that is absolute, and otherwise the child
/// behind the directory with exactly one separator of its own between them.
pub proof fn relative_children_are_put_below(base: Seq<u8>, child: Seq<u8>)
    requires
        child.len() > 0 ==> child[0] != 0x2Fu8,
        base.len() > 0,
    ensures
        base.last() != 0x2Fu8 ==> joined_path(base, child) == base + seq![0x2Fu8] + child,
        base.last() == 0x2Fu8 ==> joined_path(base, child) == base + child,
        joined_path(base, seq![0x2Fu8] + child) == seq![0x2Fu8] + child,
{
    assert(base.push(0x2Fu8) =~= base + seq![0x2Fu8]);
}

} // verus!
