//! Sources and spans.
//!
//! The source manager owns the bytes of every source file of a compilation
//! and hands out dense [`SourceId`] handles. A [`Span`] is a half-open byte
//! range inside one source; it neither owns nor borrows source content, and
//! stays valid for as long as the manager that owns the source does.

use vstd::prelude::*;

use crate::is_subrange_of;

verus! {

/// Identifies one source file held by the source manager.
pub type SourceId = usize;

/// A half-open byte range inside one source file.
#[derive(Debug, Clone, Copy, PartialEq, Eq, Structural)]
pub struct Span {
    /// The source file the range points into.
    pub source: SourceId,
    /// Byte offset of the first byte of the range.
    pub begin: usize,
    /// Byte offset one past the last byte of the range.
    pub end: usize,
}

impl Span {
    /// Build a span from its parts.
    pub fn new(source: SourceId, begin: usize, end: usize) -> (r: Span)
        ensures
            r == (Span { source, begin, end }),
    {
        Span { source, begin, end }
    }

    /// The smallest span that covers both `a` and `b`, which must point into
    /// the same source.
    pub fn union(a: Span, b: Span) -> (r: Span)
        requires
            a.source == b.source,
        ensures
            r.source == a.source,
            r.begin == if a.begin <= b.begin { a.begin } else { b.begin },
            r.end == if a.end >= b.end { a.end } else { b.end },
    {
        Span {
            source: a.source,
            begin: if a.begin <= b.begin { a.begin } else { b.begin },
            end: if a.end >= b.end { a.end } else { b.end },
        }
    }
}

/// One source file: a name (its path) and its content bytes.
#[derive(Debug, Clone, PartialEq, Eq)]
pub struct SourceFile {
    /// The path under which the file was registered.
    pub name: Vec<u8>,
    /// The raw bytes of the file.
    pub content: Vec<u8>,
}

/// Owns the bytes of every source of a compilation.
///
/// Files enter the manager through [`SourceManager::add`]; they are never
/// removed, so every previously issued `SourceId` and every span pointing
/// into a registered source stays valid.
#[derive(Debug)]
pub struct SourceManager {
    files: Vec<SourceFile>,
}

impl SourceManager {
    /// A manager holding no sources.
    pub fn new() -> (r: SourceManager)
        ensures
            r@.len() == 0,
    {
        SourceManager { files: Vec::new() }
    }

    /// The registered files, in registration order.
    pub closed spec fn view(&self) -> Seq<SourceFile> {
        self.files@
    }

    /// True when `sp` points into a registered source and lies within its
    /// bounds.
    pub open spec fn spec_span_valid(&self, sp: Span) -> bool {
        sp.source < self@.len() && sp.begin <= sp.end && sp.end
            <= self@[sp.source as int].content@.len()
    }

    /// How many sources are registered.
    pub fn len(&self) -> (r: usize)
        ensures
            r == self@.len(),
    {
        self.files.len()
    }

    /// Register a source under a name and return its handle.
    pub fn add(&mut self, name: Vec<u8>, content: Vec<u8>) -> (r: SourceId)
        ensures
            final(self)@ =~= old(self)@.push(SourceFile { name, content }),
            r == old(self)@.len(),
    {
        let r = self.files.len();
        self.files.push(SourceFile { name, content });
        r
    }

    /// Find the first registered source with the given name.
    pub fn open(&self, name: &Vec<u8>) -> (r: Option<SourceId>)
        ensures
            match r {
                Some(i) => i < self@.len() && self@[i as int].name@ == name@ && forall|j: int|
                    0 <= j < i ==> self@[j].name@ != name@,
                None => forall|j: int| 0 <= j < self@.len() ==> self@[j].name@ != name@,
            },
    {
        let mut i: usize = 0;
        while i < self.files.len()
            invariant
                i <= self@.len(),
                forall|j: int| 0 <= j < i ==> self@[j].name@ != name@,
            decreases self@.len() - i,
        {
            if bytes_eq(&self.files[i].name, name) {
                return Some(i);
            }
            i = i + 1;
        }
        None
    }

    /// The name (path) of a registered source.
    pub fn name_of(&self, source: SourceId) -> (r: Vec<u8>)
        requires
            source < self@.len(),
        ensures
            r@ == self@[source as int].name@,
    {
        clone_bytes(&self.files[source].name)
    }

    /// The length in bytes of a registered source.
    pub fn content_len(&self, source: SourceId) -> (r: usize)
        requires
            source < self@.len(),
        ensures
            r == self@[source as int].content@.len(),
    {
        self.files[source].content.len()
    }

    /// The byte at `pos` of a registered source.
    pub fn byte_at(&self, source: SourceId, pos: usize) -> (r: u8)
        requires
            source < self@.len(),
            pos < self@[source as int].content@.len(),
        ensures
            r == self@[source as int].content@[pos as int],
    {
        self.files[source].content[pos]
    }

    /// The bytes a span covers.
    pub fn extract(&self, sp: Span) -> (r: Vec<u8>)
        requires
            self.spec_span_valid(sp),
        ensures
            r@ == self@[sp.source as int].content@.subrange(sp.begin as int, sp.end as int),
    {
        let content = &self.files[sp.source].content;
        let mut r: Vec<u8> = Vec::new();
        let mut i: usize = sp.begin;
        while i < sp.end
            invariant
                sp.begin <= i <= sp.end,
                self.spec_span_valid(sp),
                content == &self@[sp.source as int].content,
                r@ == content@.subrange(sp.begin as int, i as int),
            decreases sp.end - i,
        {
            r.push(content[i]);
            proof {
                assert(r@ =~= content@.subrange(sp.begin as int, i + 1));
            }
            i = i + 1;
        }
        r
    }
}

/// Every valid span extracts to bytes that occur contiguously inside the
/// source it names.
pub proof fn lemma_span_fidelity(sm: &SourceManager, sp: Span)
    requires
        sm.spec_span_valid(sp),
    ensures
        is_subrange_of(
            sm@[sp.source as int].content@.subrange(sp.begin as int, sp.end as int),
            sm@[sp.source as int].content@,
        ),
{
    let content = sm@[sp.source as int].content@;
    let extracted = content.subrange(sp.begin as int, sp.end as int);
    assert(extracted =~= content.subrange(sp.begin as int, sp.begin + extracted.len()));
}

/// Byte-vector equality.
pub fn bytes_eq(a: &Vec<u8>, b: &Vec<u8>) -> (r: bool)
    ensures
        r == (a@ == b@),
{
    if a.len() != b.len() {
        proof {
            assert(a@.len() != b@.len());
        }
        return false;
    }
    let mut i: usize = 0;
    while i < a.len()
        invariant
            i <= a@.len(),
            a@.len() == b@.len(),
            forall|j: int| 0 <= j < i ==> a@[j] == b@[j],
        decreases a@.len() - i,
    {
        if a[i] != b[i] {
            return false;
        }
        i = i + 1;
    }
    proof {
        assert(a@ =~= b@);
    }
    true
}

/// A copy of a byte vector.
pub fn clone_bytes(a: &Vec<u8>) -> (r: Vec<u8>)
    ensures
        r@ == a@,
{
    let mut r: Vec<u8> = Vec::new();
    let mut i: usize = 0;
    while i < a.len()
        invariant
            i <= a@.len(),
            r@ == a@.subrange(0, i as int),
        decreases a@.len() - i,
    {
        r.push(a[i]);
        proof {
            assert(r@ =~= a@.subrange(0, i + 1));
        }
        i = i + 1;
    }
    proof {
        assert(r@ =~= a@);
    }
    r
}

} // verus!
