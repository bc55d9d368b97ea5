//! Byte strings and scripts.
use vstd::prelude::*;

verus! {

/// Copies a byte vector.
pub fn copy_bytes(bytes: &Vec<u8>) -> (copy: Vec<u8>)
    ensures
        copy@ == bytes@,
{
    let mut copy: Vec<u8> = Vec::with_capacity(bytes.len());
    let mut i: usize = 0;
    while i < bytes.len()
        invariant
            i <= bytes.len(),
            copy@ == bytes@.take(i as int),
        decreases bytes.len() - i,
    {
        copy.push(bytes[i]);
        i += 1;
        assert(bytes@.take(i as int) =~= bytes@.take(i - 1).push(bytes@[i - 1]));
    }
    assert(bytes@.take(i as int) =~= bytes@);
    copy
}

/// Whether two byte vectors hold the same bytes.
pub fn bytes_equal(a: &Vec<u8>, b: &Vec<u8>) -> (same: bool)
    ensures
        same == (a@ == b@),
{
    if a.len() != b.len() {
        return false;
    }
    let mut i: usize = 0;
    while i < a.len()
        invariant
            a.len() == b.len(),
            i <= a.len(),
            forall|j: int| 0 <= j < i ==> a@[j] == b@[j],
        decreases a.len() - i,
    {
        if a[i] != b[i] {
            return false;
        }
        i += 1;
    }
    assert(a@ =~= b@);
    true
}

/// Appends a byte vector to another.
pub fn append_bytes(target: &mut Vec<u8>, tail: &Vec<u8>)
    ensures
        final(target)@ == old(target)@ + tail@,
{
    let ghost before = target@;
    let mut i: usize = 0;
    while i < tail.len()
        invariant
            i <= tail.len(),
            target@ == before + tail@.take(i as int),
        decreases tail.len() - i,
    {
        target.push(tail[i]);
        i += 1;
        assert(tail@.take(i as int) =~= tail@.take(i - 1).push(tail@[i - 1]));
    }
    assert(tail@.take(i as int) =~= tail@);
}

/// Copies the bytes at the positions `from` up to `to`.
pub fn byte_part(bytes: &Vec<u8>, from: usize, to: usize) -> (part: Vec<u8>)
    requires
        from <= to <= bytes.len(),
    ensures
        part@ == bytes@.subrange(from as int, to as int),
{
    let mut part: Vec<u8> = Vec::new();
    let mut i: usize = from;
    while i < to
        invariant
            from <= i <= to <= bytes.len(),
            part@ == bytes@.subrange(from as int, i as int),
        decreases to - i,
    {
        part.push(bytes[i]);
        i += 1;
        assert(bytes@.subrange(from as int, i as int) =~= bytes@.subrange(
            from as int,
            i - 1,
        ).push(bytes@[i - 1]));
    }
    part
}

/// The views of the members of a sequence, in order.
pub open spec fn views<T: View>(items: Seq<T>) -> Seq<T::V> {
    Seq::new(items.len(), |i: int| items[i]@)
}

/// The view of an optional value.
pub open spec fn option_view<T: View>(item: Option<T>) -> Option<T::V> {
    match item {
        Some(value) => Some(value@),
        None => None,
    }
}

/// A script, as its raw bytes.
#[derive(Debug, PartialEq, Eq, Hash)]
pub struct ScriptBuf {
    /// The bytes of the script.
    pub bytes: Vec<u8>,
}

impl View for ScriptBuf {
    type V = Seq<u8>;

    open spec fn view(&self) -> Seq<u8> {
        self.bytes@
    }
}

impl Clone for ScriptBuf {
    fn clone(&self) -> (copy: Self)
        ensures
            copy@ == self@,
    {
        ScriptBuf { bytes: copy_bytes(&self.bytes) }
    }
}

impl Default for ScriptBuf {
    fn default() -> (script: Self)
        ensures
            script@ == Seq::<u8>::empty(),
    {
        ScriptBuf { bytes: Vec::new() }
    }
}

impl ScriptBuf {
    /// The empty script.
    pub fn new() -> (script: Self)
        ensures
            script@ == Seq::<u8>::empty(),
    {
        ScriptBuf { bytes: Vec::new() }
    }

    /// The script with the given bytes.
    pub fn from_bytes(bytes: Vec<u8>) -> (script: Self)
        ensures
            script@ == bytes@,
    {
        ScriptBuf { bytes }
    }

    /// Whether two scripts hold the same bytes.
    pub fn same(&self, other: &Self) -> (same: bool)
        ensures
            same == (self@ == other@),
    {
        bytes_equal(&self.bytes, &other.bytes)
    }
}

/// A value that can be copied without changing its view.
pub trait Duplicate: View + Sized {
    /// A copy of the value.
    fn duplicate(&self) -> (copy: Self)
        ensures
            copy@ == self@,
    ;
}

impl Duplicate for ScriptBuf {
    fn duplicate(&self) -> (copy: Self) {
        self.clone()
    }
}

impl Duplicate for Vec<u8> {
    fn duplicate(&self) -> (copy: Self) {
        copy_bytes(self)
    }
}

impl Duplicate for String {
    fn duplicate(&self) -> (copy: Self) {
        self.clone()
    }
}

/// Copies a list.
pub fn duplicate_all<T: Duplicate>(items: &Vec<T>) -> (copy: Vec<T>)
    ensures
        views(copy@) == views(items@),
{
    let mut copy: Vec<T> = Vec::with_capacity(items.len());
    let mut i: usize = 0;
    while i < items.len()
        invariant
            i <= items.len(),
            copy.len() == i,
            forall|j: int| 0 <= j < i ==> copy@[j]@ == (#[trigger] items@[j])@,
        decreases items.len() - i,
    {
        copy.push(items[i].duplicate());
        i += 1;
    }
    assert(views(copy@) =~= views(items@));
    copy
}

/// Copies an optional value.
pub fn duplicate_option<T: Duplicate>(item: &Option<T>) -> (copy: Option<T>)
    ensures
        option_view(copy) == option_view(*item),
{
    match item {
        Some(value) => Some(value.duplicate()),
        None => None,
    }
}

/// The position of the first script that equals `wanted`.
pub fn position_of_script(scripts: &Vec<ScriptBuf>, wanted: &ScriptBuf) -> (found: Option<usize>)
    ensures
        match found {
            Some(i) => i < scripts.len() && scripts@[i as int]@ == wanted@ && forall|j: int|
                0 <= j < i ==> (#[trigger] scripts@[j])@ != wanted@,
            None => !views(scripts@).contains(wanted@),
        },
{
    let mut i: usize = 0;
    while i < scripts.len()
        invariant
            i <= scripts.len(),
            forall|j: int| 0 <= j < i ==> (#[trigger] scripts@[j])@ != wanted@,
        decreases scripts.len() - i,
    {
        if scripts[i].same(wanted) {
            return Some(i);
        }
        i += 1;
    }
    assert(!views(scripts@).contains(wanted@)) by {
        if views(scripts@).contains(wanted@) {
            let j = choose|j: int| 0 <= j < views(scripts@).len() && views(scripts@)[j] == wanted@;
            assert(scripts@[j]@ == wanted@);
        }
    }
    None
}

} // verus!
