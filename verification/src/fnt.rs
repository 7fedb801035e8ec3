//! The filesystem name table: per-directory main table entries, the
//! length-prefixed subtable entries naming each directory's children, and the
//! recursive walk that rebuilds the whole directory tree from them.
//!
//! Every read is by absolute position into the in-memory image, so a nested
//! read can never disturb an enclosing one; the walk passes each position
//! explicitly instead of sharing a cursor.

use vstd::prelude::*;
use vstd::utf8::*;

use crate::errors::StructuralError;
use crate::reader::{le16, le32, read_bytes, read_u16, read_u32};

verus! {

/// One per-directory record of the main table: where the directory's
/// subtable starts (relative to the table base), the file ID of its first
/// file, and a field that holds the total directory count for the root but
/// the parent directory ID for every other directory.
#[derive(Debug)]
pub struct FNTDirectoryMainTable {
    pub subtable_offset: u32,
    pub first_file_id: u16,
    pub directory_id: u16,
}

impl FNTDirectoryMainTable {
    /// Reads the 8-byte main table record at `pos`.
    pub fn parse(data: &[u8], pos: usize) -> (r: FNTDirectoryMainTable)
        requires
            pos + 8 <= data@.len(),
        ensures
            r.subtable_offset == le32(data@, pos as int),
            r.first_file_id == le16(data@, pos as int + 4),
            r.directory_id == le16(data@, pos as int + 6),
    {
        let len: usize = data.len();
        assert(pos + 6 <= len);
        FNTDirectoryMainTable {
            subtable_offset: read_u32(data, pos),
            first_file_id: read_u16(data, pos + 4),
            directory_id: read_u16(data, pos + 6),
        }
    }
}

/// One decoded subtable entry. The leading tag byte both selects the
/// variant and encodes the name length: 0 ends the sequence, 1 to 0x7F name
/// a file of that length, 0x80 is reserved, and 0x81 to 0xFF name a
/// subdirectory of length `tag - 0x80` followed by its 2-byte directory ID.
#[derive(Debug)]
pub enum SubtableEntry {
    FileEntry(Vec<u8>),
    SubdirectoryEntry(Vec<u8>, u16),
    Reserved,
    End,
}

/// The mathematical form of a subtable entry: names as byte sequences.
pub enum SubtableEntryView {
    File(Seq<u8>),
    Subdirectory(Seq<u8>, u16),
    Reserved,
    End,
}

impl View for SubtableEntry {
    type V = SubtableEntryView;

    open spec fn view(&self) -> SubtableEntryView {
        match self {
            SubtableEntry::FileEntry(name) => SubtableEntryView::File(name@),
            SubtableEntry::SubdirectoryEntry(name, id) => SubtableEntryView::Subdirectory(
                name@,
                *id,
            ),
            SubtableEntry::Reserved => SubtableEntryView::Reserved,
            SubtableEntry::End => SubtableEntryView::End,
        }
    }
}

/// A subtable entry together with its raw tag byte.
#[derive(Debug)]
pub struct FNTSubtable {
    pub table_type: u8,
    pub data: SubtableEntry,
}

/// Names must be valid text: a well-formed UTF-8 byte sequence, with the
/// encoding's full rules (byte patterns, no overlong forms, no surrogates).
pub open spec fn name_ok(s: Seq<u8>) -> bool {
    valid_utf8(s)
}

/// What decoding one subtable entry at `pos` yields: the entry and the
/// position just after it. A name that runs past the input is a bounds
/// error; one that is not valid text is a name error.
pub open spec fn spec_parse_subtable(data: Seq<u8>, pos: int) -> Result<
    (SubtableEntryView, int),
    StructuralError,
>
    recommends
        0 <= pos,
{
    if pos >= data.len() {
        Err(StructuralError::OutOfBounds)
    } else {
        let tag = data[pos];
        if tag == 0 {
            Ok((SubtableEntryView::End, pos + 1))
        } else if tag == 0x80 {
            Ok((SubtableEntryView::Reserved, pos + 1))
        } else if tag < 0x80 {
            let n = tag as int;
            if pos + 1 + n > data.len() {
                Err(StructuralError::OutOfBounds)
            } else {
                let name = data.subrange(pos + 1, pos + 1 + n);
                if !name_ok(name) {
                    Err(StructuralError::InvalidName)
                } else {
                    Ok((SubtableEntryView::File(name), pos + 1 + n))
                }
            }
        } else {
            let n = (tag - 0x80) as int;
            if pos + 1 + n + 2 > data.len() {
                Err(StructuralError::OutOfBounds)
            } else {
                let name = data.subrange(pos + 1, pos + 1 + n);
                if !name_ok(name) {
                    Err(StructuralError::InvalidName)
                } else {
                    Ok(
                        (
                            SubtableEntryView::Subdirectory(
                                name,
                                le16(data, pos + 1 + n) as u16,
                            ),
                            pos + 1 + n + 2,
                        ),
                    )
                }
            }
        }
    }
}

fn check_name(name: &Vec<u8>) -> (r: bool)
    ensures
        r == name_ok(name@),
{
    let len: usize = name.len();
    proof {
        assert(name@.skip(0) =~= name@);
    }
    let mut i: usize = 0;
    while i < len
        invariant
            i <= len,
            len == name@.len(),
            valid_utf8(name@) == valid_utf8(name@.skip(i as int)),
        decreases len - i,
    {
        let ghost s = name@.skip(i as int);
        proof {
            assert forall|j: int| 0 <= j < s.len() implies #[trigger] s[j] == name@[i + j] by {}
        }
        let b0 = name[i];
        let w: usize;
        if b0 <= 0x7F {
            proof {
                assert((b0 & 0x7F) < 0xD800 && (b0 & 0x7F) >= 0) by (bit_vector);
                assert(valid_first_scalar(s));
            }
            w = 1;
        } else if 0xC0 <= b0 && b0 <= 0xDF {
            if len - i < 2 {
                return false;
            }
            let b1 = name[i + 1];
            if !(0x80 <= b1 && b1 <= 0xBF) {
                return false;
            }
            let cp: u32 = (((b0 & 0x1F) as u32) << 6) | ((b1 & 0x3F) as u32);
            if cp < 0x80 || (0xD800 <= cp && cp <= 0xDFFF) {
                return false;
            }
            proof {
                assert(valid_first_scalar(s));
            }
            w = 2;
        } else if 0xE0 <= b0 && b0 <= 0xEF {
            if len - i < 3 {
                return false;
            }
            let b1 = name[i + 1];
            let b2 = name[i + 2];
            if !(0x80 <= b1 && b1 <= 0xBF) || !(0x80 <= b2 && b2 <= 0xBF) {
                return false;
            }
            let cp: u32 = (((b0 & 0x0F) as u32) << 12) | (((b1 & 0x3F) as u32) << 6) | ((b2
                & 0x3F) as u32);
            if cp < 0x800 || (0xD800 <= cp && cp <= 0xDFFF) {
                return false;
            }
            proof {
                assert(valid_first_scalar(s));
            }
            w = 3;
        } else if 0xF0 <= b0 && b0 <= 0xF7 {
            if len - i < 4 {
                return false;
            }
            let b1 = name[i + 1];
            let b2 = name[i + 2];
            let b3 = name[i + 3];
            if !(0x80 <= b1 && b1 <= 0xBF) || !(0x80 <= b2 && b2 <= 0xBF) || !(0x80 <= b3 && b3
                <= 0xBF) {
                return false;
            }
            let cp: u32 = (((b0 & 0x07) as u32) << 18) | (((b1 & 0x3F) as u32) << 12) | (((b2
                & 0x3F) as u32) << 6) | ((b3 & 0x3F) as u32);
            if cp < 0x10000 || cp > 0x10FFFF || (0xD800 <= cp && cp <= 0xDFFF) {
                return false;
            }
            proof {
                assert(valid_first_scalar(s));
            }
            w = 4;
        } else {
            // a continuation byte, or 0xF8 and above: no leading pattern
            return false;
        }
        proof {
            assert(length_of_first_scalar(s) == w);
            assert(pop_first_scalar(s) =~= name@.skip(i + w));
        }
        i = i + w;
    }
    proof {
        assert(name@.skip(len as int) =~= Seq::<u8>::empty());
    }
    true
}

/// Decodes the subtable entry at `pos`, returning it with the position of
/// the next entry. The tag's three-way range dispatch lives here alone; the
/// walk below consumes entries one at a time through this function.
pub fn parse_subtable(data: &[u8], pos: usize) -> (r: Result<(FNTSubtable, usize), StructuralError>)
    ensures
        match r {
            Ok(t) => spec_parse_subtable(data@, pos as int) == Ok::<
                (SubtableEntryView, int),
                StructuralError,
            >((t.0.data@, t.1 as int)) && t.0.table_type == data@[pos as int] && pos < t.1
                <= data@.len(),
            Err(e) => spec_parse_subtable(data@, pos as int) == Err::<
                (SubtableEntryView, int),
                StructuralError,
            >(e),
        },
{
    let len: usize = data.len();
    if pos >= len {
        return Err(StructuralError::OutOfBounds);
    }
    let tag = data[pos];
    if tag == 0 {
        Ok((FNTSubtable { table_type: tag, data: SubtableEntry::End }, pos + 1))
    } else if tag == 0x80 {
        Ok((FNTSubtable { table_type: tag, data: SubtableEntry::Reserved }, pos + 1))
    } else if tag < 0x80 {
        let n = tag as usize;
        if len - pos - 1 < n {
            return Err(StructuralError::OutOfBounds);
        }
        let name = read_bytes(data, pos + 1, n);
        if !check_name(&name) {
            return Err(StructuralError::InvalidName);
        }
        Ok((FNTSubtable { table_type: tag, data: SubtableEntry::FileEntry(name) }, pos + 1 + n))
    } else {
        let n = (tag - 0x80) as usize;
        if len - pos - 1 < n || len - pos - 1 - n < 2 {
            return Err(StructuralError::OutOfBounds);
        }
        let name = read_bytes(data, pos + 1, n);
        if !check_name(&name) {
            return Err(StructuralError::InvalidName);
        }
        let id = read_u16(data, pos + 1 + n);
        Ok(
            (
                FNTSubtable { table_type: tag, data: SubtableEntry::SubdirectoryEntry(name, id) },
                pos + 1 + n + 2,
            ),
        )
    }
}

/// The paths below the directory `dir_id`, each the concatenation of its
/// ancestor directory names (joined with `/`) and its own name. The walk
/// reads the directory's main table record at `fnt_base + 8 * (id & 0xFFF)`,
/// then decodes its subtable entry by entry; a subdirectory entry descends
/// first and the walk then resumes the parent's sequence. `fuel` bounds the
/// directory nesting: directory IDs are 12-bit, so a chain deeper than 4096
/// must revisit an ID, which only a cyclic reference can produce.
pub open spec fn spec_walk_dir(
    data: Seq<u8>,
    fnt_base: nat,
    dir_id: u16,
    prefix: Seq<u8>,
    fuel: nat,
) -> Result<Seq<Seq<u8>>, StructuralError>
    decreases fuel, data.len() + 1,
{
    let entry_off = fnt_base + 8 * ((dir_id & 0xFFF) as nat);
    if entry_off + 8 > data.len() {
        Err(StructuralError::OutOfBounds)
    } else {
        let sub_pos = fnt_base + le32(data, entry_off as int) as nat;
        if sub_pos > data.len() {
            Err(StructuralError::OutOfBounds)
        } else {
            spec_walk_entries(data, fnt_base, sub_pos, prefix, fuel)
        }
    }
}

/// The paths contributed by the subtable entries from `pos` to the next
/// `End` marker: a file entry contributes one path, a subdirectory entry
/// all of its subtree's paths, in entry order.
pub open spec fn spec_walk_entries(
    data: Seq<u8>,
    fnt_base: nat,
    pos: nat,
    prefix: Seq<u8>,
    fuel: nat,
) -> Result<Seq<Seq<u8>>, StructuralError>
    decreases fuel, data.len() - pos,
{
    match spec_parse_subtable(data, pos as int) {
        Err(e) => Err(e),
        Ok((entry, next)) => match entry {
            SubtableEntryView::End => Ok(Seq::<Seq<u8>>::empty()),
            SubtableEntryView::Reserved => spec_walk_entries(
                data,
                fnt_base,
                next as nat,
                prefix,
                fuel,
            ),
            SubtableEntryView::File(name) => {
                match spec_walk_entries(data, fnt_base, next as nat, prefix, fuel) {
                    Err(e) => Err(e),
                    Ok(rest) => Ok(seq![prefix + name] + rest),
                }
            },
            SubtableEntryView::Subdirectory(name, child) => {
                if fuel == 0 {
                    Err(StructuralError::CyclicDirectory)
                } else {
                    match spec_walk_dir(
                        data,
                        fnt_base,
                        child,
                        prefix + name + seq![0x2Fu8],
                        (fuel - 1) as nat,
                    ) {
                        Err(e) => Err(e),
                        Ok(children) => match spec_walk_entries(
                            data,
                            fnt_base,
                            next as nat,
                            prefix,
                            fuel,
                        ) {
                            Err(e) => Err(e),
                            Ok(rest) => Ok(children + rest),
                        },
                    }
                }
            },
        },
    }
}

/// A directory tree as plain data, the declarative counterpart of the two
/// on-disk tables: each node is a file name or a directory name with its
/// children, in subtable order.
pub enum FsNode {
    File(Seq<u8>),
    Dir(Seq<u8>, Seq<FsNode>),
}

/// The tree a directory's tables encode, read off the same way the walk
/// reads them but kept as structure instead of flattened to paths.
pub open spec fn spec_tree_dir(data: Seq<u8>, fnt_base: nat, dir_id: u16, fuel: nat) -> Result<
    Seq<FsNode>,
    StructuralError,
>
    decreases fuel, data.len() + 1,
{
    let entry_off = fnt_base + 8 * ((dir_id & 0xFFF) as nat);
    if entry_off + 8 > data.len() {
        Err(StructuralError::OutOfBounds)
    } else {
        let sub_pos = fnt_base + le32(data, entry_off as int) as nat;
        if sub_pos > data.len() {
            Err(StructuralError::OutOfBounds)
        } else {
            spec_tree_entries(data, fnt_base, sub_pos, fuel)
        }
    }
}

/// The nodes encoded by the subtable entries from `pos` to the next `End`.
pub open spec fn spec_tree_entries(data: Seq<u8>, fnt_base: nat, pos: nat, fuel: nat) -> Result<
    Seq<FsNode>,
    StructuralError,
>
    decreases fuel, data.len() - pos,
{
    match spec_parse_subtable(data, pos as int) {
        Err(e) => Err(e),
        Ok((entry, next)) => match entry {
            SubtableEntryView::End => Ok(Seq::<FsNode>::empty()),
            SubtableEntryView::Reserved => spec_tree_entries(data, fnt_base, next as nat, fuel),
            SubtableEntryView::File(name) => {
                match spec_tree_entries(data, fnt_base, next as nat, fuel) {
                    Err(e) => Err(e),
                    Ok(rest) => Ok(seq![FsNode::File(name)] + rest),
                }
            },
            SubtableEntryView::Subdirectory(name, child) => {
                if fuel == 0 {
                    Err(StructuralError::CyclicDirectory)
                } else {
                    match spec_tree_dir(data, fnt_base, child, (fuel - 1) as nat) {
                        Err(e) => Err(e),
                        Ok(children) => match spec_tree_entries(data, fnt_base, next as nat, fuel) {
                            Err(e) => Err(e),
                            Ok(rest) => Ok(seq![FsNode::Dir(name, children)] + rest),
                        },
                    }
                }
            },
        },
    }
}

/// The paths of one node under `prefix`: a file contributes exactly one
/// path, its prefix followed by its name; a directory contributes the paths
/// of its children under the prefix extended by its own name and `/`.
pub open spec fn node_paths(node: FsNode, prefix: Seq<u8>) -> Seq<Seq<u8>>
    decreases node, 0int,
{
    match node {
        FsNode::File(name) => seq![prefix + name],
        FsNode::Dir(name, children) => tree_paths_from(children, 0, prefix + name + seq![0x2Fu8]),
    }
}

/// The paths of the nodes from index `i` on, concatenated in order.
pub open spec fn tree_paths_from(nodes: Seq<FsNode>, i: int, prefix: Seq<u8>) -> Seq<Seq<u8>>
    decreases nodes, nodes.len() - i,
{
    if i < 0 || i >= nodes.len() {
        Seq::<Seq<u8>>::empty()
    } else {
        node_paths(nodes[i], prefix) + tree_paths_from(nodes, i + 1, prefix)
    }
}

/// How many file leaves one node holds: one for a file, the sum over the
/// children for a directory.
pub open spec fn node_file_count(node: FsNode) -> nat
    decreases node, 0int,
{
    match node {
        FsNode::File(_) => 1,
        FsNode::Dir(_, children) => subtree_file_count(children, 0),
    }
}

/// How many file leaves the nodes from index `i` on hold together.
pub open spec fn subtree_file_count(nodes: Seq<FsNode>, i: int) -> nat
    decreases nodes, nodes.len() - i,
{
    if i < 0 || i >= nodes.len() {
        0
    } else {
        node_file_count(nodes[i]) + subtree_file_count(nodes, i + 1)
    }
}

proof fn lemma_node_paths_count(node: FsNode, prefix: Seq<u8>)
    ensures
        node_paths(node, prefix).len() == node_file_count(node),
    decreases node, 0int,
{
    match node {
        FsNode::File(_) => {},
        FsNode::Dir(name, children) => {
            lemma_tree_paths_count(children, 0, prefix + name + seq![0x2Fu8]);
        },
    }
}

/// Law: flattening a tree yields exactly one path per file leaf — no file
/// is missed and none is listed twice.
pub proof fn lemma_tree_paths_count(nodes: Seq<FsNode>, i: int, prefix: Seq<u8>)
    ensures
        tree_paths_from(nodes, i, prefix).len() == subtree_file_count(nodes, i),
    decreases nodes, nodes.len() - i,
{
    if 0 <= i < nodes.len() {
        lemma_node_paths_count(nodes[i], prefix);
        lemma_tree_paths_count(nodes, i + 1, prefix);
    }
}

proof fn lemma_tree_paths_shift(n: FsNode, rest: Seq<FsNode>, i: int, prefix: Seq<u8>)
    requires
        0 <= i,
    ensures
        tree_paths_from(seq![n] + rest, i + 1, prefix) == tree_paths_from(rest, i, prefix),
    decreases rest.len() - i,
{
    if i < rest.len() {
        assert((seq![n] + rest)[i + 1] == rest[i]);
        lemma_tree_paths_shift(n, rest, i + 1, prefix);
    }
}

proof fn lemma_tree_paths_cons(n: FsNode, rest: Seq<FsNode>, prefix: Seq<u8>)
    ensures
        tree_paths_from(seq![n] + rest, 0, prefix) == node_paths(n, prefix) + tree_paths_from(
            rest,
            0,
            prefix,
        ),
{
    assert((seq![n] + rest)[0] == n);
    lemma_tree_paths_shift(n, rest, 0, prefix);
}

proof fn lemma_walk_entries_matches_tree(
    data: Seq<u8>,
    fnt_base: nat,
    pos: nat,
    prefix: Seq<u8>,
    fuel: nat,
)
    ensures
        match spec_tree_entries(data, fnt_base, pos, fuel) {
            Ok(nodes) => spec_walk_entries(data, fnt_base, pos, prefix, fuel) == Ok::<
                Seq<Seq<u8>>,
                StructuralError,
            >(tree_paths_from(nodes, 0, prefix)),
            Err(e) => spec_walk_entries(data, fnt_base, pos, prefix, fuel) == Err::<
                Seq<Seq<u8>>,
                StructuralError,
            >(e),
        },
    decreases fuel, data.len() - pos,
{
    match spec_parse_subtable(data, pos as int) {
        Err(_) => {},
        Ok((entry, next)) => match entry {
            SubtableEntryView::End => {},
            SubtableEntryView::Reserved => {
                lemma_walk_entries_matches_tree(data, fnt_base, next as nat, prefix, fuel);
            },
            SubtableEntryView::File(name) => {
                lemma_walk_entries_matches_tree(data, fnt_base, next as nat, prefix, fuel);
                if spec_tree_entries(data, fnt_base, next as nat, fuel) is Ok {
                    let rest = spec_tree_entries(data, fnt_base, next as nat, fuel)->Ok_0;
                    lemma_tree_paths_cons(FsNode::File(name), rest, prefix);
                }
            },
            SubtableEntryView::Subdirectory(name, child) => {
                if fuel > 0 {
                    lemma_walk_matches_tree(
                        data,
                        fnt_base,
                        child,
                        prefix + name + seq![0x2Fu8],
                        (fuel - 1) as nat,
                    );
                    if spec_tree_dir(data, fnt_base, child, (fuel - 1) as nat) is Ok {
                        let children = spec_tree_dir(data, fnt_base, child, (fuel - 1) as nat)->Ok_0;
                        lemma_walk_entries_matches_tree(data, fnt_base, next as nat, prefix, fuel);
                        if spec_tree_entries(data, fnt_base, next as nat, fuel) is Ok {
                            let rest = spec_tree_entries(data, fnt_base, next as nat, fuel)->Ok_0;
                            lemma_tree_paths_cons(FsNode::Dir(name, children), rest, prefix);
                        }
                    }
                }
            },
        },
    }
}

/// Law: the walk visits every file of the encoded tree exactly once, in
/// subtable order, and gives each one the path formed by concatenating its
/// ancestor directory names. Stated as: whenever the tables encode a tree,
/// the walk's output is exactly that tree's flattening under the given
/// prefix — one path per file leaf — and the two fail alike otherwise.
pub proof fn lemma_walk_matches_tree(
    data: Seq<u8>,
    fnt_base: nat,
    dir_id: u16,
    prefix: Seq<u8>,
    fuel: nat,
)
    ensures
        match spec_tree_dir(data, fnt_base, dir_id, fuel) {
            Ok(nodes) => spec_walk_dir(data, fnt_base, dir_id, prefix, fuel) == Ok::<
                Seq<Seq<u8>>,
                StructuralError,
            >(tree_paths_from(nodes, 0, prefix)),
            Err(e) => spec_walk_dir(data, fnt_base, dir_id, prefix, fuel) == Err::<
                Seq<Seq<u8>>,
                StructuralError,
            >(e),
        },
    decreases fuel, data.len() + 1,
{
    let entry_off = fnt_base + 8 * ((dir_id & 0xFFF) as nat);
    if entry_off + 8 <= data.len() {
        let sub_pos = fnt_base + le32(data, entry_off as int) as nat;
        if sub_pos <= data.len() {
            lemma_walk_entries_matches_tree(data, fnt_base, sub_pos, prefix, fuel);
        }
    }
}

fn join_bytes(a: &Vec<u8>, b: &Vec<u8>) -> (r: Vec<u8>)
    ensures
        r@ == a@ + b@,
{
    let mut r: Vec<u8> = Vec::new();
    let mut i: usize = 0;
    while i < a.len()
        invariant
            i <= a@.len(),
            r@ == a@.subrange(0, i as int),
        decreases a@.len() - i,
    {
        r.push(a[i]);
        assert(r@ =~= a@.subrange(0, i + 1));
        i = i + 1;
    }
    let mut j: usize = 0;
    while j < b.len()
        invariant
            j <= b@.len(),
            r@ == a@ + b@.subrange(0, j as int),
        decreases b@.len() - j,
    {
        r.push(b[j]);
        assert(r@ =~= a@ + b@.subrange(0, j + 1));
        j = j + 1;
    }
    assert(r@ =~= a@ + b@);
    r
}

/// Walks the directory `dir_id` and returns the paths of every file below
/// it, in visitation order, each path the `/`-joined concatenation of its
/// ancestor directory names under `prefix`. `fuel` bounds the nesting
/// depth; a walk that exhausts it has hit a cyclic directory reference.
pub fn iterate_main_table(
    data: &[u8],
    fnt_base: usize,
    dir_id: u16,
    prefix: &Vec<u8>,
    fuel: usize,
) -> (r: Result<Vec<Vec<u8>>, StructuralError>)
    ensures
        match r {
            Ok(files) => spec_walk_dir(data@, fnt_base as nat, dir_id, prefix@, fuel as nat)
                == Ok::<Seq<Seq<u8>>, StructuralError>(files.deep_view()),
            Err(e) => spec_walk_dir(data@, fnt_base as nat, dir_id, prefix@, fuel as nat) == Err::<
                Seq<Seq<u8>>,
                StructuralError,
            >(e),
        },
    decreases fuel,
{
    let len: usize = data.len();
    let idx: usize = (dir_id & 0xFFF) as usize;
    if fnt_base > len || len - fnt_base < 8 * idx + 8 {
        return Err(StructuralError::OutOfBounds);
    }
    let entry_off: usize = fnt_base + 8 * idx;
    let sub_off: usize = read_u32(data, entry_off) as usize;
    if sub_off > len - fnt_base {
        return Err(StructuralError::OutOfBounds);
    }
    let mut pos: usize = fnt_base + sub_off;
    let mut files: Vec<Vec<u8>> = Vec::new();
    loop
        invariant
            len == data@.len(),
            pos <= len,
            match spec_walk_entries(data@, fnt_base as nat, pos as nat, prefix@, fuel as nat) {
                Ok(rest) => spec_walk_dir(data@, fnt_base as nat, dir_id, prefix@, fuel as nat)
                    == Ok::<Seq<Seq<u8>>, StructuralError>(files.deep_view() + rest),
                Err(e) => spec_walk_dir(data@, fnt_base as nat, dir_id, prefix@, fuel as nat)
                    == Err::<Seq<Seq<u8>>, StructuralError>(e),
            },
        decreases len - pos,
    {
        let (table, next) = match parse_subtable(data, pos) {
            Ok(t) => t,
            Err(e) => {
                return Err(e);
            },
        };
        match table.data {
            SubtableEntry::End => {
                proof {
                    assert(files.deep_view() + Seq::<Seq<u8>>::empty() =~= files.deep_view());
                }
                return Ok(files);
            },
            SubtableEntry::Reserved => {
                pos = next;
            },
            SubtableEntry::FileEntry(name) => {
                let path = join_bytes(prefix, &name);
                let ghost before = files.deep_view();
                files.push(path);
                proof {
                    assert(files.deep_view() =~~= before + seq![prefix@ + name@]);
                    assert forall|rest: Seq<Seq<u8>>|
                        true implies before + (seq![prefix@ + name@] + rest) =~~= files.deep_view()
                        + rest by {}
                }
                pos = next;
            },
            SubtableEntry::SubdirectoryEntry(name, child) => {
                if fuel == 0 {
                    return Err(StructuralError::CyclicDirectory);
                }
                let mut child_prefix = join_bytes(prefix, &name);
                child_prefix.push(0x2Fu8);
                proof {
                    assert(child_prefix@ =~= prefix@ + name@ + seq![0x2Fu8]);
                }
                let mut children = match iterate_main_table(
                    data,
                    fnt_base,
                    child,
                    &child_prefix,
                    fuel - 1,
                ) {
                    Ok(c) => c,
                    Err(e) => {
                        return Err(e);
                    },
                };
                let ghost child_paths = children.deep_view();
                let ghost before = files.deep_view();
                while children.len() > 0
                    invariant
                        files.deep_view() + children.deep_view() == before + child_paths,
                    decreases children@.len(),
                {
                    let ghost files_pre = files.deep_view();
                    let ghost children_pre = children.deep_view();
                    let v = children.remove(0);
                    files.push(v);
                    proof {
                        assert(files.deep_view() =~~= files_pre.push(children_pre[0]));
                        assert(children.deep_view() =~~= children_pre.drop_first());
                        assert(files.deep_view() + children.deep_view() =~~= files_pre
                            + children_pre);
                    }
                }
                proof {
                    assert(files.deep_view() =~~= before + child_paths);
                    assert forall|rest: Seq<Seq<u8>>|
                        true implies before + (child_paths + rest) =~~= files.deep_view() + rest by {}
                }
                pos = next;
            },
        }
    }
}

} // verus!
