//! Canonical absolute paths inside an archive.
//!
//! A path is modelled as the sequence of its components below the root: the
//! root itself is the empty sequence, and `/a/b` is `[a, b]`.

use vstd::prelude::*;

verus! {

/// The byte that separates components.
pub const SEPARATOR: u8 = 0x2f;

/// The byte of which the "current directory" component consists.
pub const DOT: u8 = 0x2e;

/// The pieces of `raw` between separators, empty pieces included. There is always
/// at least one piece: the empty string has one empty piece.
pub open spec fn segments(raw: Seq<u8>) -> Seq<Seq<u8>>
    decreases raw.len(),
{
    if raw.len() == 0 {
        seq![Seq::<u8>::empty()]
    } else {
        let before = segments(raw.drop_last());
        if raw.last() == SEPARATOR {
            before.push(Seq::<u8>::empty())
        } else {
            before.drop_last().push(before.last().push(raw.last()))
        }
    }
}

/// Whether a piece between separators names something: empty pieces and `.` do not.
pub open spec fn names_something(piece: Seq<u8>) -> bool {
    piece.len() > 0 && piece != seq![DOT]
}

/// The pieces that name something, in order.
pub open spec fn naming(pieces: Seq<Seq<u8>>) -> Seq<Seq<u8>>
    decreases pieces.len(),
{
    if pieces.len() == 0 {
        Seq::<Seq<u8>>::empty()
    } else if names_something(pieces.last()) {
        naming(pieces.drop_last()).push(pieces.last())
    } else {
        naming(pieces.drop_last())
    }
}

/// The components of a stored name, relative or absolute: `a/b`, `/a/b`,
/// `./a//b/` all have the components `[a, b]`.
pub open spec fn components(raw: Seq<u8>) -> Seq<Seq<u8>> {
    naming(segments(raw))
}

/// A component: not empty, not `.`, and free of separators.
pub open spec fn is_component(name: Seq<u8>) -> bool {
    names_something(name) && !name.contains(SEPARATOR)
}

/// A canonical path: a sequence of components.
pub open spec fn is_path(parts: Seq<Seq<u8>>) -> bool {
    forall|i: int| 0 <= i < parts.len() ==> is_component(#[trigger] parts[i])
}

/// The components joined by separators, without a leading one: the name under
/// which formats that store relative names keep the path.
pub open spec fn relative(parts: Seq<Seq<u8>>) -> Seq<u8>
    decreases parts.len(),
{
    if parts.len() == 0 {
        Seq::<u8>::empty()
    } else if parts.len() == 1 {
        parts[0]
    } else {
        relative(parts.drop_last()) + seq![SEPARATOR] + parts.last()
    }
}

/// The absolute rendering: a separator, then the relative name.
pub open spec fn absolute(parts: Seq<Seq<u8>>) -> Seq<u8> {
    seq![SEPARATOR] + relative(parts)
}

/// The views of the rows of a vector of byte strings.
pub open spec fn rows(v: Seq<Vec<u8>>) -> Seq<Seq<u8>> {
    Seq::new(v.len(), |i: int| v[i]@)
}

/// A canonical absolute path inside an archive. Its view is the sequence of its
/// components below the root, each of them a component in the sense of
/// [`is_component`].
#[derive(Debug, PartialEq, Eq)]
pub struct ArchivePath {
    parts: Vec<Vec<u8>>,
}

impl View for ArchivePath {
    type V = Seq<Seq<u8>>;

    closed spec fn view(&self) -> Seq<Seq<u8>> {
        rows(self.parts@)
    }
}

impl Clone for ArchivePath {
    fn clone(&self) -> (copy: Self)
        ensures
            copy@ == self@,
    {
        self.duplicate()
    }
}

/// A copy of a byte string.
pub fn copy_bytes(source: &[u8]) -> (copy: Vec<u8>)
    ensures
        copy@ == source@,
{
    let mut copy: Vec<u8> = Vec::new();
    let mut i: usize = 0;
    while i < source.len()
        invariant
            i <= source.len(),
            copy@ == source@.take(i as int),
        decreases source.len() - i,
    {
        copy.push(source[i]);
        i += 1;
        assert(copy@ == source@.take(i as int));
    }
    assert(source@.take(source.len() as int) == source@);
    copy
}

/// A copy of a vector of byte strings.
pub fn copy_rows(source: &Vec<Vec<u8>>) -> (copy: Vec<Vec<u8>>)
    ensures
        rows(copy@) == rows(source@),
{
    let mut copy: Vec<Vec<u8>> = Vec::new();
    let mut i: usize = 0;
    while i < source.len()
        invariant
            i <= source.len(),
            rows(copy@) == rows(source@).take(i as int),
        decreases source.len() - i,
    {
        let ghost before = rows(copy@);
        copy.push(copy_bytes(source[i].as_slice()));
        i += 1;
        assert(rows(copy@) == before.push(source@[i - 1]@));
    }
    assert(rows(source@).take(source.len() as int) == rows(source@));
    copy
}

/// Whether two byte strings are equal.
pub fn same_bytes(a: &[u8], b: &[u8]) -> (same: bool)
    ensures
        same == (a@ == b@),
{
    if a.len() != b.len() {
        return false;
    }
    let mut i: usize = 0;
    while i < a.len()
        invariant
            i <= a.len(),
            a.len() == b.len(),
            a@.take(i as int) == b@.take(i as int),
        decreases a.len() - i,
    {
        if a[i] != b[i] {
            return false;
        }
        i += 1;
        assert(a@.take(i as int) == a@.take(i - 1).push(a@[i - 1]));
        assert(b@.take(i as int) == b@.take(i - 1).push(b@[i - 1]));
    }
    assert(a@.take(a.len() as int) == a@);
    assert(b@.take(b.len() as int) == b@);
    true
}

fn names_something_exec(piece: &Vec<u8>) -> (named: bool)
    ensures
        named == names_something(piece@),
{
    if piece.len() == 0 {
        false
    } else if piece.len() == 1 && piece[0] == DOT {
        assert(piece@ == seq![DOT]);
        false
    } else {
        if piece.len() == 1 {
            assert(piece@[0] != seq![DOT][0]);
        }
        true
    }
}

impl ArchivePath {
    #[verifier::type_invariant]
    spec fn well_formed(self) -> bool {
        is_path(rows(self.parts@))
    }

    /// Every path is canonical. Calling this costs nothing at run time; it
    /// hands the caller's proof the invariant of the type.
    pub fn is_canonical(&self)
        ensures
            is_path(self@),
    {
        proof {
            use_type_invariant(self);
        }
    }

    /// The root of the archive.
    pub fn root() -> (path: ArchivePath)
        ensures
            path@ == Seq::<Seq<u8>>::empty(),
    {
        let parts: Vec<Vec<u8>> = Vec::new();
        assert(rows(parts@) == Seq::<Seq<u8>>::empty());
        ArchivePath { parts }
    }

    /// The canonical path of a stored name. Relative names are taken from the
    /// root; repeated and trailing separators and `.` pieces are dropped.
    pub fn parse(raw: &[u8]) -> (path: ArchivePath)
        ensures
            path@ == components(raw@),
    {
        let mut parts: Vec<Vec<u8>> = Vec::new();
        let mut piece: Vec<u8> = Vec::new();
        let mut i: usize = 0;
        assert(raw@.take(0) == Seq::<u8>::empty());
        assert(segments(raw@.take(0)).drop_last() == Seq::<Seq<u8>>::empty());
        assert(rows(parts@) == Seq::<Seq<u8>>::empty());
        while i < raw.len()
            invariant
                i <= raw.len(),
                segments(raw@.take(i as int)).len() > 0,
                piece@ == segments(raw@.take(i as int)).last(),
                rows(parts@) == naming(segments(raw@.take(i as int)).drop_last()),
            decreases raw.len() - i,
        {
            let ghost before = segments(raw@.take(i as int));
            let ghost old_rows = rows(parts@);
            let byte = raw[i];
            proof {
                assert(raw@.take(i + 1).drop_last() == raw@.take(i as int));
                assert(raw@.take(i + 1).last() == byte);
                lemma_segments_nonempty(raw@.take(i + 1));
            }
            if byte == SEPARATOR {
                if names_something_exec(&piece) {
                    parts.push(piece);
                    assert(rows(parts@) == old_rows.push(before.last()));
                }
                piece = Vec::new();
                proof {
                    let after = segments(raw@.take(i + 1));
                    assert(after == before.push(Seq::<u8>::empty()));
                    assert(after.drop_last() == before);
                }
            } else {
                piece.push(byte);
                proof {
                    let after = segments(raw@.take(i + 1));
                    assert(after == before.drop_last().push(before.last().push(byte)));
                    assert(after.drop_last() == before.drop_last());
                }
            }
            i += 1;
        }
        assert(raw@.take(raw.len() as int) == raw@);
        let ghost all = segments(raw@);
        let ghost old_rows = rows(parts@);
        if names_something_exec(&piece) {
            parts.push(piece);
            assert(rows(parts@) == old_rows.push(all.last()));
        }
        proof {
            lemma_components_is_path(raw@);
        }
        ArchivePath { parts }
    }

    /// Whether this is the root.
    pub fn is_root(&self) -> (root: bool)
        ensures
            root == (self@.len() == 0),
    {
        self.parts.len() == 0
    }

    /// The number of components below the root.
    pub fn depth(&self) -> (depth: usize)
        ensures
            depth == self@.len(),
    {
        self.parts.len()
    }

    /// The path made of the first `count` components.
    pub fn prefix(&self, count: usize) -> (path: ArchivePath)
        requires
            count <= self@.len(),
        ensures
            path@ == self@.take(count as int),
    {
        proof {
            use_type_invariant(self);
        }
        let mut parts: Vec<Vec<u8>> = Vec::new();
        let mut i: usize = 0;
        assert(rows(parts@) == self@.take(0));
        while i < count
            invariant
                i <= count <= self.parts.len(),
                rows(parts@) == rows(self.parts@).take(i as int),
            decreases count - i,
        {
            let ghost old_rows = rows(parts@);
            let piece = copy_bytes(self.parts[i].as_slice());
            parts.push(piece);
            i += 1;
            assert(rows(parts@) == old_rows.push(self.parts@[i - 1]@));
            assert(rows(parts@) == rows(self.parts@).take(i as int));
        }
        ArchivePath { parts }
    }

    /// The directory that holds this path: `None` for the root.
    pub fn parent(&self) -> (parent: Option<ArchivePath>)
        ensures
            self@.len() == 0 ==> parent is None,
            self@.len() > 0 ==> (parent matches Some(p) && p@ == self@.drop_last()),
    {
        if self.parts.len() == 0 {
            None
        } else {
            let p = self.prefix(self.parts.len() - 1);
            assert(self@.take(self@.len() - 1) == self@.drop_last());
            Some(p)
        }
    }

    /// The path and all the directories above it, from the root down to the
    /// path itself.
    pub fn ancestors(&self) -> (chain: Vec<ArchivePath>)
        ensures
            chain@.len() == self@.len() + 1,
            forall|i: int| 0 <= i <= self@.len() ==> (#[trigger] chain@[i])@ == self@.take(i),
    {
        let mut chain: Vec<ArchivePath> = Vec::new();
        let mut i: usize = 0;
        while i < self.parts.len()
            invariant
                i <= self.parts.len(),
                self.parts.len() == self@.len(),
                chain@.len() == i,
                forall|j: int| 0 <= j < i ==> (#[trigger] chain@[j])@ == self@.take(j),
            decreases self.parts.len() - i,
        {
            let p = self.prefix(i);
            chain.push(p);
            i += 1;
        }
        let whole = self.prefix(self.parts.len());
        chain.push(whole);
        chain
    }

    /// A copy of the path.
    pub fn duplicate(&self) -> (copy: ArchivePath)
        ensures
            copy@ == self@,
    {
        let copy = self.prefix(self.parts.len());
        assert(self@.take(self@.len() as int) == self@);
        copy
    }

    /// Whether two paths are the same.
    pub fn same_as(&self, other: &ArchivePath) -> (same: bool)
        ensures
            same == (self@ == other@),
    {
        if self.parts.len() != other.parts.len() {
            return false;
        }
        let mut i: usize = 0;
        while i < self.parts.len()
            invariant
                i <= self.parts.len(),
                self.parts.len() == other.parts.len(),
                self@.take(i as int) == other@.take(i as int),
            decreases self.parts.len() - i,
        {
            if !same_bytes(self.parts[i].as_slice(), other.parts[i].as_slice()) {
                assert(self@[i as int] != other@[i as int]);
                return false;
            }
            i += 1;
            assert(self@.take(i as int) == self@.take(i - 1).push(self@[i - 1]));
            assert(other@.take(i as int) == other@.take(i - 1).push(other@[i - 1]));
        }
        assert(self@.take(self@.len() as int) == self@);
        assert(other@.take(other@.len() as int) == other@);
        true
    }

    /// The name without a leading separator, as formats that store relative
    /// names keep it. The root has the empty name.
    pub fn to_relative_bytes(&self) -> (name: Vec<u8>)
        ensures
            name@ == relative(self@),
    {
        let mut name: Vec<u8> = Vec::new();
        let mut i: usize = 0;
        assert(self@.take(0) == Seq::<Seq<u8>>::empty());
        while i < self.parts.len()
            invariant
                i <= self.parts.len(),
                self.parts.len() == self@.len(),
                name@ == relative(self@.take(i as int)),
            decreases self.parts.len() - i,
        {
            let ghost shorter = self@.take(i as int);
            let ghost longer = self@.take(i + 1);
            if i > 0 {
                name.push(SEPARATOR);
            }
            let piece = &self.parts[i];
            let ghost joined = name@;
            let mut j: usize = 0;
            while j < piece.len()
                invariant
                    j <= piece.len(),
                    name@ == joined + piece@.take(j as int),
                decreases piece.len() - j,
            {
                name.push(piece[j]);
                j += 1;
                assert(piece@.take(j as int) == piece@.take(j - 1).push(piece@[j - 1]));
            }
            proof {
                assert(piece@.take(piece.len() as int) == piece@);
                assert(longer.drop_last() == shorter);
                assert(longer.last() == piece@);
                if i == 0 {
                    assert(longer.len() == 1);
                    assert(joined == Seq::<u8>::empty());
                    assert(name@ == piece@);
                } else {
                    assert(joined == relative(shorter) + seq![SEPARATOR]);
                }
            }
            i += 1;
        }
        assert(self@.take(self@.len() as int) == self@);
        name
    }

    /// The absolute name: a separator, then the relative name.
    pub fn to_bytes(&self) -> (name: Vec<u8>)
        ensures
            name@ == absolute(self@),
    {
        let tail = self.to_relative_bytes();
        let mut name: Vec<u8> = Vec::new();
        name.push(SEPARATOR);
        let mut j: usize = 0;
        while j < tail.len()
            invariant
                j <= tail.len(),
                name@ == seq![SEPARATOR] + tail@.take(j as int),
            decreases tail.len() - j,
        {
            name.push(tail[j]);
            j += 1;
            assert(tail@.take(j as int) == tail@.take(j - 1).push(tail@[j - 1]));
        }
        assert(tail@.take(tail.len() as int) == tail@);
        name
    }

    /// The components, each as a byte string of its own.
    pub fn into_components(self) -> (parts: Vec<Vec<u8>>)
        ensures
            rows(parts@) == self@,
    {
        self.parts
    }

    /// The path with the given components.
    pub(crate) fn from_components(parts: Vec<Vec<u8>>) -> (path: ArchivePath)
        requires
            is_path(rows(parts@)),
        ensures
            path@ == rows(parts@),
    {
        ArchivePath { parts }
    }
}

pub proof fn lemma_segments_nonempty(raw: Seq<u8>)
    ensures
        segments(raw).len() > 0,
    decreases raw.len(),
{
    if raw.len() > 0 {
        lemma_segments_nonempty(raw.drop_last());
    }
}

/// No piece between separators holds a separator.
pub proof fn lemma_segments_hold_no_separator(raw: Seq<u8>)
    ensures
        forall|i: int| 0 <= i < segments(raw).len() ==> !(#[trigger] segments(raw)[i]).contains(SEPARATOR),
    decreases raw.len(),
{
    if raw.len() > 0 {
        lemma_segments_nonempty(raw.drop_last());
        lemma_segments_hold_no_separator(raw.drop_last());
        let before = segments(raw.drop_last());
        if raw.last() != SEPARATOR {
            let grown = before.last().push(raw.last());
            assert forall|j: int| 0 <= j < grown.len() implies grown[j] != SEPARATOR by {
                if j < before.last().len() {
                    assert(before.last().contains(before.last()[j]));
                }
            }
        }
    }
}

/// What names something among pieces that hold no separator is a canonical path.
pub proof fn lemma_naming_is_path(pieces: Seq<Seq<u8>>)
    requires
        forall|i: int| 0 <= i < pieces.len() ==> !(#[trigger] pieces[i]).contains(SEPARATOR),
    ensures
        is_path(naming(pieces)),
    decreases pieces.len(),
{
    if pieces.len() > 0 {
        lemma_naming_is_path(pieces.drop_last());
    }
}

/// The components of any stored name form a canonical path.
pub proof fn lemma_components_is_path(raw: Seq<u8>)
    ensures
        is_path(components(raw)),
{
    lemma_segments_hold_no_separator(raw);
    lemma_naming_is_path(segments(raw));
}


/// Concatenating stored names with a separator between them concatenates their
/// pieces.
pub proof fn lemma_segments_of_joined(a: Seq<u8>, b: Seq<u8>)
    ensures
        segments(a + seq![SEPARATOR] + b) == segments(a) + segments(b),
    decreases b.len(),
{
    let whole = a + seq![SEPARATOR] + b;
    if b.len() == 0 {
        assert(whole.drop_last() == a);
        assert(segments(whole) == segments(a).push(Seq::<u8>::empty()));
        assert(segments(a).push(Seq::<u8>::empty()) == segments(a) + segments(b));
    } else {
        lemma_segments_of_joined(a, b.drop_last());
        lemma_segments_nonempty(b.drop_last());
        assert(whole.drop_last() == a + seq![SEPARATOR] + b.drop_last());
        assert(whole.last() == b.last());
        let before = segments(a) + segments(b.drop_last());
        assert(before.last() == segments(b.drop_last()).last());
        assert(before.drop_last() == segments(a) + segments(b.drop_last()).drop_last());
        if b.last() == SEPARATOR {
            assert(before.push(Seq::<u8>::empty()) == segments(a) + segments(b));
        } else {
            assert(before.drop_last().push(before.last().push(b.last())) == segments(a) + segments(b));
        }
    }
}

/// A stored name without a separator is one piece.
pub proof fn lemma_segments_of_plain(name: Seq<u8>)
    requires
        !name.contains(SEPARATOR),
    ensures
        segments(name) == seq![name],
    decreases name.len(),
{
    if name.len() == 0 {
        assert(name == Seq::<u8>::empty());
    } else {
        let shorter = name.drop_last();
        assert forall|j: int| 0 <= j < shorter.len() implies shorter[j] != SEPARATOR by {
            assert(name.contains(name[j]));
        }
        lemma_segments_of_plain(shorter);
        assert(name.contains(name.last()));
        assert(shorter.push(name.last()) == name);
        assert(seq![shorter].drop_last() == Seq::<Seq<u8>>::empty());
        assert(Seq::<Seq<u8>>::empty().push(name) == seq![name]);
    }
}

/// What names something in a concatenation is the concatenation of what names
/// something in each part.
pub proof fn lemma_naming_of_concat(a: Seq<Seq<u8>>, b: Seq<Seq<u8>>)
    ensures
        naming(a + b) == naming(a) + naming(b),
    decreases b.len(),
{
    if b.len() == 0 {
        assert(a + b == a);
    } else {
        lemma_naming_of_concat(a, b.drop_last());
        assert((a + b).drop_last() == a + b.drop_last());
        assert((a + b).last() == b.last());
    }
}

/// Reading back the relative name of a canonical path gives the path.
pub proof fn lemma_components_of_relative(parts: Seq<Seq<u8>>)
    requires
        is_path(parts),
    ensures
        components(relative(parts)) == parts,
    decreases parts.len(),
{
    if parts.len() == 0 {
        assert(segments(relative(parts)) == seq![Seq::<u8>::empty()]);
        assert(seq![Seq::<u8>::empty()].drop_last() == Seq::<Seq<u8>>::empty());
        assert(naming(seq![Seq::<u8>::empty()].drop_last()) == Seq::<Seq<u8>>::empty());
    } else if parts.len() == 1 {
        lemma_segments_of_plain(parts[0]);
        assert(seq![parts[0]].drop_last() == Seq::<Seq<u8>>::empty());
        assert(naming(seq![parts[0]].drop_last()) == Seq::<Seq<u8>>::empty());
        assert(naming(seq![parts[0]]) == seq![parts[0]]);
        assert(parts == seq![parts[0]]);
    } else {
        let front = parts.drop_last();
        lemma_components_of_relative(front);
        lemma_segments_of_joined(relative(front), parts.last());
        lemma_segments_of_plain(parts.last());
        lemma_naming_of_concat(segments(relative(front)), seq![parts.last()]);
        assert(seq![parts.last()].drop_last() == Seq::<Seq<u8>>::empty());
        assert(naming(seq![parts.last()].drop_last()) == Seq::<Seq<u8>>::empty());
        assert(naming(seq![parts.last()]) == seq![parts.last()]);
        assert(front + seq![parts.last()] == parts);
    }
}

/// Reading back the absolute name of a canonical path gives the path.
pub proof fn lemma_components_of_absolute(parts: Seq<Seq<u8>>)
    requires
        is_path(parts),
    ensures
        components(absolute(parts)) == parts,
{
    lemma_components_of_relative(parts);
    lemma_segments_of_joined(Seq::<u8>::empty(), relative(parts));
    assert(Seq::<u8>::empty() + seq![SEPARATOR] + relative(parts) == absolute(parts));
    lemma_naming_of_concat(segments(Seq::<u8>::empty()), segments(relative(parts)));
    assert(seq![Seq::<u8>::empty()].drop_last() == Seq::<Seq<u8>>::empty());
    assert(naming(seq![Seq::<u8>::empty()].drop_last()) == Seq::<Seq<u8>>::empty());
    assert(naming(segments(Seq::<u8>::empty())) == Seq::<Seq<u8>>::empty());
    assert(Seq::<Seq<u8>>::empty() + parts == parts);
}

} // verus!
