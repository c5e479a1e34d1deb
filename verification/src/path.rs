//! Paths of files, as bytes, and their parts.
use vstd::prelude::*;

verus! {

/// A part of a path.
#[derive(Debug, PartialEq)]
pub enum Part {
    Root,
    Current,
    Parent,
    Normal(Vec<u8>),
}

/// What a [`Part`] stands for.
pub enum PartView {
    Root,
    Current,
    Parent,
    Normal(Seq<u8>),
}

impl View for Part {
    type V = PartView;

    open spec fn view(&self) -> PartView {
        match self {
            Part::Root => PartView::Root,
            Part::Current => PartView::Current,
            Part::Parent => PartView::Parent,
            Part::Normal(name) => PartView::Normal(name@),
        }
    }
}

/// What parts stand for.
pub open spec fn part_views(parts: Seq<Part>) -> Seq<PartView> {
    Seq::new(parts.len(), |i: int| parts[i]@)
}

/// What a list of byte strings stands for.
pub open spec fn byte_views(list: Seq<Vec<u8>>) -> Seq<Seq<u8>> {
    Seq::new(list.len(), |i: int| list[i]@)
}

/// The place of the next `byte` from `from` on, or the end.
pub open spec fn next_byte(path: Seq<u8>, byte: u8, from: int) -> int
    decreases path.len() - from,
{
    if from >= path.len() || path[from] == byte {
        from
    } else {
        next_byte(path, byte, from + 1)
    }
}

proof fn lemma_next_byte(path: Seq<u8>, byte: u8, from: int)
    requires
        0 <= from <= path.len(),
    ensures
        from <= next_byte(path, byte, from) <= path.len(),
        forall|i: int| from <= i < next_byte(path, byte, from) ==> #[trigger] path[i] != byte,
        next_byte(path, byte, from) < path.len() ==> path[next_byte(path, byte, from)] == byte,
    decreases path.len() - from,
{
    if from < path.len() && path[from] != byte {
        lemma_next_byte(path, byte, from + 1);
    }
}

/// What a piece between slashes is: nothing and a dot are no part.
pub open spec fn piece_part(piece: Seq<u8>) -> Option<PartView> {
    if piece.len() == 0 || piece == seq![46u8] {
        None
    } else if piece == seq![46u8, 46u8] {
        Some(PartView::Parent)
    } else {
        Some(PartView::Normal(piece))
    }
}

/// The parts of a path from `from` on.
pub open spec fn parts_from(path: Seq<u8>, from: int) -> Seq<PartView>
    decreases path.len() + 1 - from,
    via parts_from_decrease
{
    if from < 0 || from >= path.len() {
        Seq::empty()
    } else {
        let end = next_byte(path, 47, from);
        let rest = parts_from(path, end + 1);
        match piece_part(path.subrange(from, end)) {
            Some(part) => seq![part] + rest,
            None => rest,
        }
    }
}

#[via_fn]
proof fn parts_from_decrease(path: Seq<u8>, from: int) {
    if 0 <= from < path.len() {
        lemma_next_byte(path, 47, from);
    }
}

/// Whether a path begins with a dot that stands for the current directory.
pub open spec fn begins_here(path: Seq<u8>) -> bool {
    path.len() > 0 && path[0] == 46 && (path.len() == 1 || path[1] == 47)
}

/// The parts of a path.
pub open spec fn parts(path: Seq<u8>) -> Seq<PartView> {
    if path.len() > 0 && path[0] == 47 {
        seq![PartView::Root] + parts_from(path, 0)
    } else if begins_here(path) {
        seq![PartView::Current] + parts_from(path, 0)
    } else {
        parts_from(path, 0)
    }
}

fn find_byte(path: &Vec<u8>, byte: u8, from: usize) -> (end: usize)
    requires
        from <= path.len(),
    ensures
        end == next_byte(path@, byte, from as int),
        from <= end <= path.len(),
{
    let mut end: usize = from;
    while end < path.len() && path[end] != byte
        invariant
            from <= end <= path.len(),
            next_byte(path@, byte, from as int) == next_byte(path@, byte, end as int),
        decreases path.len() - end,
    {
        end += 1;
    }
    end
}

fn piece_of(path: &Vec<u8>, from: usize, to: usize) -> (piece: Vec<u8>)
    requires
        from <= to <= path.len(),
    ensures
        piece@ == path@.subrange(from as int, to as int),
{
    let mut piece: Vec<u8> = Vec::new();
    let mut i: usize = from;
    while i < to
        invariant
            from <= i <= to <= path.len(),
            piece@ == path@.subrange(from as int, i as int),
        decreases to - i,
    {
        piece.push(path[i]);
        assert(piece@ =~= path@.subrange(from as int, i + 1));
        i += 1;
    }
    piece
}

fn add_part(list: &mut Vec<Part>, part: Part)
    ensures
        part_views(final(list)@) == part_views(old(list)@).push(part@),
{
    list.push(part);
    assert(part_views(list@) =~= part_views(old(list)@).push(part@));
}

fn part_of(piece: Vec<u8>) -> (part: Option<Part>)
    ensures
        match part {
            Some(part) => piece_part(piece@) == Some(part@),
            None => piece_part(piece@) is None,
        },
{
    if piece.len() == 0 {
        return None;
    }
    if piece.len() == 1 && piece[0] == 46 {
        assert(piece@ =~= seq![46u8]);
        return None;
    }
    if piece.len() == 2 && piece[0] == 46 && piece[1] == 46 {
        assert(piece@ =~= seq![46u8, 46u8]);
        return Some(Part::Parent);
    }
    assert(piece@ != seq![46u8]) by {
        if piece@ == seq![46u8] {
            assert(piece@.len() == 1 && piece@[0] == 46);
        }
    }
    assert(piece@ != seq![46u8, 46u8]) by {
        if piece@ == seq![46u8, 46u8] {
            assert(piece@.len() == 2 && piece@[0] == 46 && piece@[1] == 46);
        }
    }
    Some(Part::Normal(piece))
}

/// The parts of a path.
pub fn path_parts(path: &Vec<u8>) -> (list: Vec<Part>)
    ensures
        part_views(list@) == parts(path@),
{
    let mut list: Vec<Part> = Vec::new();
    assert(part_views(list@) =~= Seq::empty());
    if path.len() > 0 && path[0] == 47 {
        add_part(&mut list, Part::Root);
    } else if path.len() > 0 && path[0] == 46 && (path.len() == 1 || path[1] == 47) {
        add_part(&mut list, Part::Current);
    }
    let mut from: usize = 0;
    assert(part_views(list@) + parts_from(path@, 0) =~= parts(path@));
    while from < path.len()
        invariant
            from <= path.len(),
            part_views(list@) + parts_from(path@, from as int) == parts(path@),
        decreases path.len() - from,
    {
        let end = find_byte(path, 47, from);
        let ghost before = part_views(list@);
        let ghost rest = parts_from(path@, end + 1);
        match part_of(piece_of(path, from, end)) {
            Some(part) => {
                add_part(&mut list, part);
                assert(before + (seq![part@] + rest) =~= before.push(part@) + rest);
            },
            None => {},
        }
        if end < path.len() {
            from = end + 1;
        } else {
            from = end;
            assert(rest =~= Seq::empty());
            assert(parts_from(path@, from as int) =~= Seq::empty());
        }
    }
    assert(part_views(list@) + Seq::<PartView>::empty() =~= part_views(list@));
    list
}

/// Whether two byte strings are equal.
pub fn same_bytes(left: &Vec<u8>, right: &Vec<u8>) -> (same: bool)
    ensures
        same == (left@ == right@),
{
    if left.len() != right.len() {
        return false;
    }
    let mut i: usize = 0;
    while i < left.len()
        invariant
            i <= left.len(),
            left.len() == right.len(),
            forall|k: int| 0 <= k < i ==> left[k] == right[k],
        decreases left.len() - i,
    {
        if left[i] != right[i] {
            assert(left@[i as int] != right@[i as int]);
            return false;
        }
        i += 1;
    }
    assert(left@ =~= right@);
    true
}

fn same_part(left: &Part, right: &Part) -> (same: bool)
    ensures
        same == (left@ == right@),
{
    match (left, right) {
        (Part::Root, Part::Root) => true,
        (Part::Current, Part::Current) => true,
        (Part::Parent, Part::Parent) => true,
        (Part::Normal(left), Part::Normal(right)) => same_bytes(left, right),
        _ => false,
    }
}

/// Whether the parts of a path begin with those of another.
pub open spec fn begins_with(path: Seq<PartView>, base: Seq<PartView>) -> bool {
    base.len() <= path.len() && path.take(base.len() as int) == base
}

fn parts_begin_with(path: &Vec<Part>, base: &Vec<Part>) -> (result: bool)
    ensures
        result == begins_with(part_views(path@), part_views(base@)),
{
    if base.len() > path.len() {
        return false;
    }
    let ghost whole = part_views(path@);
    let ghost start = part_views(base@);
    let mut i: usize = 0;
    while i < base.len()
        invariant
            i <= base.len() <= path.len(),
            whole == part_views(path@),
            start == part_views(base@),
            forall|k: int| 0 <= k < i ==> whole[k] == start[k],
        decreases base.len() - i,
    {
        if !same_part(&path[i], &base[i]) {
            assert(whole.take(start.len() as int)[i as int] != start[i as int]);
            return false;
        }
        i += 1;
    }
    assert(whole.take(start.len() as int) =~= start);
    true
}

/// Whether a path lies in a directory, or is it.
pub fn path_starts_with(path: &Vec<u8>, base: &Vec<u8>) -> (result: bool)
    ensures
        result == begins_with(parts(path@), parts(base@)),
{
    parts_begin_with(&path_parts(path), &path_parts(base))
}

/// Whether two paths have the same parts.
pub fn same_path(left: &Vec<u8>, right: &Vec<u8>) -> (same: bool)
    ensures
        same == (parts(left@) == parts(right@)),
{
    let left = path_parts(left);
    let right = path_parts(right);
    assert(part_views(left@).take(left.len() as int) =~= part_views(left@));
    left.len() == right.len() && parts_begin_with(&left, &right)
}

/// Whether a path lies below a directory, with nothing in between that leads out
/// again.
pub open spec fn strictly_below(path: Seq<u8>, root: Seq<u8>) -> bool {
    let whole = parts(path);
    let start = parts(root);
    &&& begins_with(whole, start)
    &&& start.len() < whole.len()
    &&& forall|i: int| start.len() <= i < whole.len() ==> (#[trigger] whole[i]) is Normal
}

/// Whether a path lies strictly below a directory.
pub fn is_strict_descendant(path: &Vec<u8>, root: &Vec<u8>) -> (result: bool)
    ensures
        result == strictly_below(path@, root@),
{
    let whole = path_parts(path);
    let start = path_parts(root);
    if !parts_begin_with(&whole, &start) || whole.len() == start.len() {
        return false;
    }
    let ghost all = part_views(whole@);
    let mut i: usize = start.len();
    while i < whole.len()
        invariant
            start.len() <= i <= whole.len(),
            all == part_views(whole@),
            all == parts(path@),
            part_views(start@) == parts(root@),
            forall|k: int| start.len() <= k < i ==> (#[trigger] all[k]) is Normal,
        decreases whole.len() - i,
    {
        assert(all[i as int] == whole[i as int]@);
        match &whole[i] {
            Part::Normal(_) => {},
            _ => {
                return false;
            },
        }
        i += 1;
    }
    true
}

/// Whether a path begins at the root.
pub open spec fn absolute(path: Seq<u8>) -> bool {
    path.len() > 0 && path[0] == 47
}

/// Whether a path begins at the root.
pub fn is_absolute(path: &Vec<u8>) -> (result: bool)
    ensures
        result == absolute(path@),
{
    path.len() > 0 && path[0] == 47
}

/// What stands between colons, from `from` on.
pub open spec fn entries(list: Seq<u8>, from: int) -> Seq<Seq<u8>>
    decreases list.len() - from,
    via entries_decrease
{
    if from < 0 || from > list.len() {
        Seq::empty()
    } else {
        let end = next_byte(list, 58, from);
        seq![list.subrange(from, end)] + (if end < list.len() {
            entries(list, end + 1)
        } else {
            Seq::empty()
        })
    }
}

#[via_fn]
proof fn entries_decrease(list: Seq<u8>, from: int) {
    if 0 <= from <= list.len() {
        lemma_next_byte(list, 58, from);
    }
}

/// The paths of a search path.
pub fn split_paths(list: &Vec<u8>) -> (paths: Vec<Vec<u8>>)
    ensures
        byte_views(paths@) == entries(list@, 0),
{
    let mut paths: Vec<Vec<u8>> = Vec::new();
    let mut from: usize = 0;
    assert(byte_views(paths@) + entries(list@, 0) =~= entries(list@, 0));
    loop
        invariant_except_break
            byte_views(paths@) + entries(list@, from as int) == entries(list@, 0),
        invariant
            from <= list.len(),
        ensures
            byte_views(paths@) == entries(list@, 0),
        decreases list.len() - from,
    {
        let end = find_byte(list, 58, from);
        let piece = piece_of(list, from, end);
        let ghost before = byte_views(paths@);
        paths.push(piece);
        assert(byte_views(paths@) =~= before.push(piece@));
        if end == list.len() {
            assert(before + (seq![piece@] + Seq::empty()) =~= before.push(piece@));
            break ;
        }
        proof {
            let rest = entries(list@, end + 1);
            assert(before + (seq![piece@] + rest) =~= before.push(piece@) + rest);
        }
        from = end + 1;
    }
    paths
}

/// A name is a part of a path that is no more than a name: it has no slash, and is
/// neither of the two that are dots alone.
pub open spec fn plain_part(name: Seq<u8>) -> bool {
    name.len() > 0 && !name.contains(47) && name != seq![46u8] && name != seq![46u8, 46u8]
}

/// A name that is put behind a path, with a slash between, is one more part of it.
pub proof fn law_name_behind_a_path_is_one_part(path: Seq<u8>, name: Seq<u8>)
    requires
        path.len() > 0,
        plain_part(name),
    ensures
        parts(path + seq![47u8] + name) == parts(path).push(PartView::Normal(name)),
        strictly_below(path + seq![47u8] + name, path),
        !strictly_below(path, path),
        !strictly_below(path, path + seq![47u8] + name),
{
    let whole = path + seq![47u8] + name;
    lemma_parts_grow(path, name, 0);
    assert(whole[0] == path[0]);
    if path.len() == 1 {
        assert(whole[1] == 47);
    } else {
        assert(whole[1] == path[1]);
    }
    assert(begins_here(whole) == begins_here(path));
    assert(parts(whole) =~= parts(path).push(PartView::Normal(name)));
    assert(parts(whole).take(parts(path).len() as int) =~= parts(path));
}

proof fn lemma_parts_grow(path: Seq<u8>, name: Seq<u8>, from: int)
    requires
        0 <= from <= path.len(),
        plain_part(name),
    ensures
        parts_from(path + seq![47u8] + name, from) == parts_from(path, from).push(
            PartView::Normal(name),
        ),
    decreases path.len() - from,
{
    let whole = path + seq![47u8] + name;
    let length = path.len() as int;
    lemma_next_byte(whole, 47, from);
    lemma_next_byte(path, 47, from);
    let end = next_byte(path, 47, from);
    let last = next_byte(whole, 47, from);
    assert(whole[length] == 47);
    assert(last <= length);
    if end < length {
        assert(whole[end] == path[end]);
        if last < end {
            assert(whole[last] == path[last]);
        }
    } else if last < length {
        assert(whole[last] == path[last]);
    }
    assert(last == end);
    assert(whole.subrange(from, end) =~= path.subrange(from, end));
    if end < length {
        lemma_parts_grow(path, name, end + 1);
        match piece_part(path.subrange(from, end)) {
            Some(part) => {
                let rest = parts_from(path, end + 1);
                assert((seq![part] + rest).push(PartView::Normal(name)) =~= seq![part] + rest.push(
                    PartView::Normal(name),
                ));
            },
            None => {},
        }
    } else {
        lemma_next_byte(whole, 47, length + 1);
        let stop = next_byte(whole, 47, length + 1);
        if stop < whole.len() {
            assert(name[stop - length - 1] == 47);
            assert(name.contains(47));
        }
        assert(whole.subrange(length + 1, stop) =~= name);
        assert(parts_from(whole, stop + 1) =~= Seq::empty());
        assert(parts_from(whole, length + 1) =~= seq![PartView::Normal(name)]);
        assert(parts_from(path, length + 1) =~= Seq::empty());
        if from < length {
            match piece_part(path.subrange(from, end)) {
                Some(part) => {
                    assert(parts_from(path, from) =~= seq![part]);
                    assert(parts_from(whole, from) =~= seq![part].push(PartView::Normal(name)));
                },
                None => {
                    assert(parts_from(path, from) =~= Seq::empty());
                    assert(parts_from(whole, from) =~= Seq::empty().push(PartView::Normal(name)));
                },
            }
        } else {
            assert(path.subrange(from, end) =~= Seq::empty());
            assert(parts_from(path, from) =~= Seq::empty());
            assert(parts_from(whole, from) =~= Seq::empty().push(PartView::Normal(name)));
        }
    }
}

/// A path is absolute where it starts at the root, and then its first part is the root.
pub proof fn law_absolute_path_starts_at_the_root(path: Seq<u8>)
    ensures
        absolute(path) <==> path.len() > 0 && parts(path).len() > 0 && parts(path)[0] is Root,
        absolute(path) ==> path[0] == 47,
        absolute(seq![47u8] + path),
{
    if !absolute(path) {
        lemma_no_root(path, 0);
    }
}

proof fn lemma_no_root(path: Seq<u8>, from: int)
    requires
        0 <= from,
    ensures
        forall|i: int| 0 <= i < parts_from(path, from).len() ==> !(#[trigger] parts_from(path, from)[i] is Root),
    decreases path.len() + 1 - from,
{
    if from < path.len() {
        lemma_next_byte(path, 47, from);
        lemma_no_root(path, next_byte(path, 47, from) + 1);
    }
}

/// A list of paths is parted at its colons, and nowhere else.
pub proof fn law_list_is_parted_at_its_colons(first: Seq<u8>, rest: Seq<u8>)
    requires
        !first.contains(58),
    ensures
        entries(first, 0) == seq![first],
        entries(first + seq![58u8] + rest, 0) == seq![first] + entries(rest, 0),
{
    let whole = first + seq![58u8] + rest;
    let length = first.len() as int;
    lemma_next_byte(first, 58, 0);
    let end = next_byte(first, 58, 0);
    if end < length {
        assert(first.contains(first[end]));
    }
    assert(first.subrange(0, length) =~= first);
    assert(entries(first, 0) =~= seq![first]);
    lemma_next_byte(whole, 58, 0);
    let at = next_byte(whole, 58, 0);
    assert(whole[length] == 58);
    assert(at <= length);
    if at < length {
        assert(whole[at] == first[at]);
        assert(first.contains(first[at]));
    }
    assert(whole.subrange(0, length) =~= first);
    lemma_entries_shift(whole, rest, length + 1, 0);
}

proof fn lemma_entries_shift(whole: Seq<u8>, rest: Seq<u8>, by: int, from: int)
    requires
        0 <= from <= rest.len(),
        0 <= by,
        whole.len() == rest.len() + by,
        forall|i: int| 0 <= i < rest.len() ==> #[trigger] rest[i] == whole[i + by],
    ensures
        entries(whole, by + from) == entries(rest, from),
    decreases rest.len() - from,
{
    lemma_next_byte(rest, 58, from);
    lemma_next_byte(whole, 58, by + from);
    let end = next_byte(rest, 58, from);
    let last = next_byte(whole, 58, by + from);
    if end < rest.len() {
        assert(whole[end + by] == rest[end]);
    }
    if last < by + end {
        assert(rest[last - by] == whole[last]);
    }
    assert(last == by + end);
    assert(whole.subrange(by + from, last) =~= rest.subrange(from, end));
    if end < rest.len() {
        lemma_entries_shift(whole, rest, by, end + 1);
    }
}

} // verus!
