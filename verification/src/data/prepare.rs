//! The one-off pass that turns a corpus into a pair of shard directories.
//!
//! Documents are tokenised a chunk at a time; every document then goes, whole,
//! to either the training or the validation shards.

use vstd::prelude::*;
use vstd::utf8::*;

use crate::data::session::{
    Doc, all_bytes, all_ids, left_behind, reading_gives_back_what_was_written, session,
};
use crate::data::shard::{Append, Finished, Meta, Writer, Written, corpus, encode, shard_name};

verus! {

/// Documents tokenised per parallel chunk. Large enough to amortise the join,
/// small enough that a chunk of web documents stays under a gigabyte.
pub const CHUNK: usize = 4096;

/// One document in `VALID_EVERY` is held out. The split is by whole document, so
/// no validation text can appear in training.
pub const VALID_EVERY: u64 = 200;

/// Why preparing a corpus failed; each variant holds the text of its cause.
#[derive(Debug, PartialEq, Eq)]
pub enum Error {
    Corpus(String),
    Tokenizer(String),
    Io(String),
}

impl Error {
    /// The text of the cause.
    pub open spec fn cause(self) -> Seq<char> {
        match self {
            Error::Corpus(text) => text@,
            Error::Tokenizer(text) => text@,
            Error::Io(text) => text@,
        }
    }

    /// What went wrong, in the words of the cause.
    pub fn message(&self) -> (text: &str)
        ensures
            text@ == self.cause(),
            match *self {
                Error::Corpus(cause) => text@ == cause@,
                Error::Tokenizer(cause) => text@ == cause@,
                Error::Io(cause) => text@ == cause@,
            },
    {
        match self {
            Error::Corpus(text) => text.as_str(),
            Error::Tokenizer(text) => text.as_str(),
            Error::Io(text) => text.as_str(),
        }
    }
}

// ── chunks ───────────────────────────────────────────────────────────────────

/// Groups a fallible document stream into owned chunks, failing the whole chunk
/// on the first bad document.
#[derive(Debug)]
pub struct Chunker {
    pending: Vec<String>,
}

impl View for Chunker {
    type V = Seq<String>;

    /// The documents that wait for their chunk to fill.
    closed spec fn view(&self) -> Seq<String> {
        self.pending@
    }
}

impl Chunker {
    #[verifier::type_invariant]
    spec fn unfilled(self) -> bool {
        self.pending@.len() < CHUNK
    }

    /// A chunker that waits for its first document.
    pub fn new() -> (chunker: Self)
        ensures
            chunker@ == Seq::<String>::empty(),
    {
        Self { pending: Vec::new() }
    }

    /// Take the next document of the stream. A chunk comes back when this
    /// document fills it; a bad document fails the chunk it would have joined.
    pub fn offer(&mut self, doc: Result<String, String>) -> (chunk: Option<
        Result<Vec<String>, Error>,
    >)
        ensures
            doc matches Ok(doc) ==> {
                let grown = old(self)@.push(doc);
                if grown.len() == CHUNK {
                    &&& chunk matches Some(Ok(docs)) && docs@ == grown
                    &&& final(self)@ == Seq::<String>::empty()
                } else {
                    &&& chunk is None
                    &&& final(self)@ == grown
                }
            },
            doc matches Err(cause) ==> {
                &&& chunk == Some(Err::<Vec<String>, Error>(Error::Corpus(cause)))
                &&& final(self)@ == Seq::<String>::empty()
            },
            doc is Ok ==> (chunk is Some <==> old(self)@.len() == 4095),
            doc is Ok && old(self)@.len() < 4095 ==> final(self)@.len() == old(self)@.len() + 1,
    {
        proof {
            use_type_invariant(&*self);
        }
        let mut pending: Vec<String> = Vec::new();
        std::mem::swap(&mut pending, &mut self.pending);
        match doc {
            Ok(doc) => {
                pending.push(doc);
                if pending.len() == CHUNK {
                    Some(Ok(pending))
                } else {
                    self.pending = pending;
                    None
                }
            },
            Err(cause) => Some(Err(Error::Corpus(cause))),
        }
    }

    /// The stream has ended: the documents still waiting are the last chunk.
    pub fn close(self) -> (chunk: Option<Vec<String>>)
        ensures
            chunk is None <==> self@.len() == 0,
            chunk matches Some(docs) ==> docs@ == self@,
    {
        if self.pending.len() == 0 {
            None
        } else {
            Some(self.pending)
        }
    }
}

/// What offering good documents one by one has handed out, and what still waits.
pub struct Chunked {
    pub full: Seq<Seq<String>>,
    pub pending: Seq<String>,
}

/// The state after offering each of `docs` to a new chunker.
pub open spec fn chunked(docs: Seq<String>) -> Chunked
    decreases docs.len(),
{
    if docs.len() == 0 {
        Chunked { full: Seq::empty(), pending: Seq::empty() }
    } else {
        let before = chunked(docs.drop_last());
        let grown = before.pending.push(docs.last());
        if grown.len() == CHUNK {
            Chunked { full: before.full.push(grown), pending: Seq::empty() }
        } else {
            Chunked { full: before.full, pending: grown }
        }
    }
}

/// Chunking loses, repeats and reorders nothing: the chunks are the documents
/// cut every [`CHUNK`], and what waits is the rest, shorter than a chunk.
pub proof fn chunks_cut_the_stream(docs: Seq<String>)
    ensures
        ({
            let c = chunked(docs);
            let size = CHUNK as int;
            &&& c.full.len() == docs.len() / CHUNK as nat
            &&& forall|k: int|
                0 <= k < c.full.len() ==> #[trigger] c.full[k] == docs.subrange(
                    k * size,
                    (k + 1) * size,
                )
            &&& c.pending == docs.skip(c.full.len() * size)
            &&& c.pending.len() < CHUNK
        }),
    decreases docs.len(),
{
    let c = chunked(docs);
    if docs.len() == 0 {
        assert(c.pending =~= docs.skip(0));
    } else {
        let front = docs.drop_last();
        chunks_cut_the_stream(front);
        let before = chunked(front);
        let size = CHUNK as int;
        let cut = before.full.len() * size;
        let grown = before.pending.push(docs.last());
        assert(grown =~= docs.skip(cut));
        assert forall|k: int| 0 <= k < before.full.len() implies #[trigger] before.full[k]
            == docs.subrange(k * size, (k + 1) * size) by {
            assert((k + 1) * size <= cut);
            assert(front.subrange(k * size, (k + 1) * size) =~= docs.subrange(
                k * size,
                (k + 1) * size,
            ));
        }
        if grown.len() == CHUNK {
            assert(docs.len() == cut + size);
            assert(grown =~= docs.subrange(cut, cut + size));
            assert(c.pending =~= docs.skip(c.full.len() * size));
        }
    }
}

// ── encoded documents ────────────────────────────────────────────────────────

/// One tokenised document: its ids, and the UTF-8 bytes of its text.
#[derive(Debug, PartialEq, Eq)]
pub struct Encoded {
    pub ids: Vec<u16>,
    pub bytes: usize,
}

impl View for Encoded {
    type V = Doc;

    open spec fn view(&self) -> Doc {
        Doc { ids: self.ids@, bytes: self.bytes as nat }
    }
}

impl Encoded {
    /// Put the tokenizer's answer for `doc` together with the length of `doc`.
    pub fn new(doc: &str, ids: Result<Vec<u16>, String>) -> (encoded: Result<Self, Error>)
        ensures
            ids matches Ok(ids) ==> (encoded matches Ok(e) && e.ids == ids && e.bytes
                == encode_utf8(doc@).len() as usize),
            ids matches Err(cause) ==> encoded == Err::<Self, Error>(Error::Tokenizer(cause)),
    {
        match ids {
            Ok(ids) => Ok(Self { ids, bytes: doc.len() }),
            Err(cause) => Err(Error::Tokenizer(cause)),
        }
    }
}

/// The documents of a chunk.
pub open spec fn docs_of(chunk: Seq<Encoded>) -> Seq<Doc> {
    Seq::new(chunk.len(), |i: int| chunk[i]@)
}

// ── the split ────────────────────────────────────────────────────────────────

/// Which shards a document goes to.
#[derive(Debug, Clone, Copy, PartialEq, Eq, Structural)]
pub enum Split {
    Train,
    Valid,
}

/// The split of document `index`.
pub open spec fn split_of(index: nat) -> Split {
    if index % VALID_EVERY as nat == 0 {
        Split::Valid
    } else {
        Split::Train
    }
}

/// What has been prepared so far: the number of documents met, and the counts of
/// both writers.
pub struct Prep {
    pub index: nat,
    pub train: Written,
    pub valid: Written,
}

impl Prep {
    /// Nothing prepared.
    pub open spec fn none(vocab_size: usize, eos: u16) -> Prep {
        Prep {
            index: 0,
            train: Written::none(vocab_size, eos),
            valid: Written::none(vocab_size, eos),
        }
    }

    /// The counts of one split.
    pub open spec fn of(self, split: Split) -> Written {
        match split {
            Split::Train => self.train,
            Split::Valid => self.valid,
        }
    }

    /// The state after one more document.
    pub open spec fn with_doc(self, doc: Doc) -> Prep {
        let split = split_of(self.index);
        let grown = self.of(split).with_doc(doc.ids.len(), doc.bytes);
        Prep {
            index: self.index + 1,
            train: if split == Split::Train { grown } else { self.train },
            valid: if split == Split::Valid { grown } else { self.valid },
        }
    }

    /// Whether the counts of one more document fit their integers.
    pub open spec fn has_room(self, doc: Doc) -> bool {
        &&& self.index + 1 <= u64::MAX
        &&& self.of(split_of(self.index)).has_room(doc.ids.len(), doc.bytes)
    }

    /// The state after all of `docs`.
    pub open spec fn with_docs(self, docs: Seq<Doc>) -> Prep
        decreases docs.len(),
    {
        if docs.len() == 0 {
            self
        } else {
            self.with_docs(docs.drop_last()).with_doc(docs.last())
        }
    }

    /// Whether there is room for each of `docs` in turn.
    pub open spec fn has_room_for(self, docs: Seq<Doc>) -> bool {
        forall|i: int|
            0 <= i < docs.len() ==> #[trigger] self.with_docs(docs.take(i)).has_room(docs[i])
    }
}

/// One document on its way to the disk.
#[derive(Debug, PartialEq, Eq)]
pub struct Routed {
    pub split: Split,
    pub append: Append,
}

impl Routed {
    /// Whether this is what writing `doc` asks of the disk in state `prep`.
    pub open spec fn asks(self, prep: Prep, doc: Doc) -> bool {
        let writer = prep.of(self.split);
        &&& self.split == split_of(prep.index)
        &&& self.append.bytes@ == encode(doc.ids)
        &&& self.append.next is Some <==> writer.fills(doc.ids.len())
        &&& self.append.next matches Some(name) ==> name@ == shard_name(writer.index + 1)
    }
}

/// What `prepare` wrote, one [`Meta`] per split.
#[derive(Debug, Clone, Copy, PartialEq, Eq, Structural)]
pub struct Prepared {
    pub train: Meta,
    pub valid: Meta,
}

/// What closing both splits asks of the disk.
#[derive(Debug, PartialEq, Eq)]
pub struct Closing {
    pub train: Finished,
    pub valid: Finished,
}

impl Closing {
    /// The sidecars of both splits.
    pub fn prepared(&self) -> (prepared: Prepared)
        ensures
            prepared == (Prepared { train: self.train.meta, valid: self.valid.meta }),
    {
        Prepared { train: self.train.meta, valid: self.valid.meta }
    }
}

/// Routes encoded documents to the training and validation shards.
#[derive(Debug, Clone, Copy, PartialEq, Eq)]
pub struct Preparer {
    index: u64,
    train: Writer,
    valid: Writer,
}

impl View for Preparer {
    type V = Prep;

    closed spec fn view(&self) -> Prep {
        Prep { index: self.index as nat, train: self.train@, valid: self.valid@ }
    }
}

impl Preparer {
    /// Both splits open, no document met.
    pub fn create(vocab_size: usize, eos: u16) -> (preparer: Self)
        ensures
            preparer@ == Prep::none(vocab_size, eos),
            preparer@.index == 0,
            preparer@.train == (Written {
                index: 0,
                in_shard: 0,
                tokens: 0,
                docs: 0,
                bytes: 0,
                vocab_size,
                eos,
            }),
            preparer@.valid == preparer@.train,
    {
        Self {
            index: 0,
            train: Writer::create(vocab_size, eos),
            valid: Writer::create(vocab_size, eos),
        }
    }

    /// The number of documents met.
    pub fn docs(&self) -> (docs: u64)
        ensures
            docs == self@.index,
    {
        self.index
    }

    /// Whether the counts of `doc` would fit.
    pub fn can_push(&self, doc: &Encoded) -> (fits: bool)
        ensures
            fits == self@.has_room(doc@),
            fits <==> {
                let writer = if self@.index % 200 == 0 { self@.valid } else { self@.train };
                let held = writer.in_shard + 2 * doc.ids@.len();
                &&& self@.index < u64::MAX
                &&& held <= usize::MAX
                &&& writer.tokens + doc.ids@.len() <= u64::MAX
                &&& writer.docs < u64::MAX
                &&& writer.bytes + doc.bytes <= u64::MAX
                &&& held >= 536_870_912 ==> writer.index < usize::MAX
            },
    {
        let writer = if self.index.is_multiple_of(VALID_EVERY) {
            &self.valid
        } else {
            &self.train
        };
        self.index < u64::MAX && writer.can_push(doc.ids.len(), doc.bytes)
    }

    /// Route one document.
    pub fn push(&mut self, doc: &Encoded) -> (routed: Routed)
        requires
            old(self)@.has_room(doc@),
        ensures
            final(self)@ == old(self)@.with_doc(doc@),
            routed.asks(old(self)@, doc@),
            routed.split == Split::Valid <==> old(self)@.index % 200 == 0,
            final(self)@.index == old(self)@.index + 1,
            ({
                let held_out = old(self)@.index % 200 == 0;
                let (before, after) = if held_out {
                    (old(self)@.valid, final(self)@.valid)
                } else {
                    (old(self)@.train, final(self)@.train)
                };
                &&& held_out ==> final(self)@.train == old(self)@.train
                &&& !held_out ==> final(self)@.valid == old(self)@.valid
                &&& after.tokens == before.tokens + doc.ids@.len()
                &&& after.docs == before.docs + 1
                &&& after.bytes == before.bytes + doc.bytes
                &&& routed.append.next is Some <==> before.in_shard + 2 * doc.ids@.len()
                    >= 536_870_912
            }),
            routed.append.bytes@.len() == 2 * doc.ids@.len(),
            forall|p: int|
                0 <= p < routed.append.bytes@.len() ==> #[trigger] routed.append.bytes@[p] == if p
                    % 2 == 0 {
                    doc.ids@[p / 2] % 256
                } else {
                    doc.ids@[p / 2] / 256
                },
    {
        let held = self.index.is_multiple_of(VALID_EVERY);
        self.index = self.index + 1;
        if held {
            let append = self.valid.push(doc.ids.as_slice(), doc.bytes);
            Routed { split: Split::Valid, append }
        } else {
            let append = self.train.push(doc.ids.as_slice(), doc.bytes);
            Routed { split: Split::Train, append }
        }
    }

    /// Whether the counts of each document of a chunk would fit in turn.
    pub fn can_push_chunk(&self, chunk: &Vec<Encoded>) -> (fits: bool)
        ensures
            fits == self@.has_room_for(docs_of(chunk@)),
    {
        let ghost docs = docs_of(chunk@);
        let mut trial = *self;
        let mut i: usize = 0;
        assert(docs.take(0) =~= Seq::empty());
        while i < chunk.len()
            invariant
                docs == docs_of(chunk@),
                i <= chunk@.len(),
                trial@ == self@.with_docs(docs.take(i as int)),
                forall|j: int|
                    0 <= j < i ==> #[trigger] self@.with_docs(docs.take(j)).has_room(docs[j]),
            decreases chunk@.len() - i,
        {
            assert(docs.take(i + 1).drop_last() =~= docs.take(i as int));
            if !trial.can_push(&chunk[i]) {
                assert(!self@.with_docs(docs.take(i as int)).has_room(docs[i as int]));
                return false;
            }
            trial.count(&chunk[i]);
            i = i + 1;
        }
        true
    }

    /// Count one document without writing it.
    fn count(&mut self, doc: &Encoded)
        requires
            old(self)@.has_room(doc@),
        ensures
            final(self)@ == old(self)@.with_doc(doc@),
    {
        let held = self.index.is_multiple_of(VALID_EVERY);
        self.index = self.index + 1;
        if held {
            self.valid.count(doc.ids.len(), doc.bytes);
        } else {
            self.train.count(doc.ids.len(), doc.bytes);
        }
    }

    /// Route a chunk of documents, in order.
    pub fn push_chunk(&mut self, chunk: &Vec<Encoded>) -> (routed: Vec<Routed>)
        requires
            old(self)@.has_room_for(docs_of(chunk@)),
        ensures
            final(self)@ == old(self)@.with_docs(docs_of(chunk@)),
            routed@.len() == chunk@.len(),
            forall|i: int|
                0 <= i < chunk@.len() ==> (#[trigger] routed@[i]).asks(
                    old(self)@.with_docs(docs_of(chunk@).take(i)),
                    chunk@[i]@,
                ),
            final(self)@.index == old(self)@.index + chunk@.len(),
            forall|i: int|
                0 <= i < chunk@.len() ==> {
                    let routed = #[trigger] routed@[i];
                    &&& routed.split == Split::Valid <==> (old(self)@.index + i) % 200 == 0
                    &&& routed.append.bytes@ == encode(chunk@[i].ids@)
                },
    {
        let ghost docs = docs_of(chunk@);
        let ghost start = self@;
        let mut routed: Vec<Routed> = Vec::new();
        let mut i: usize = 0;
        assert(docs.take(0) =~= Seq::empty());
        while i < chunk.len()
            invariant
                docs == docs_of(chunk@),
                start.has_room_for(docs),
                i <= chunk@.len(),
                self@ == start.with_docs(docs.take(i as int)),
                self@.index == start.index + i,
                routed@.len() == i,
                forall|j: int|
                    0 <= j < i ==> {
                        let routed = #[trigger] routed@[j];
                        &&& routed.split == Split::Valid <==> (start.index + j) % 200 == 0
                        &&& routed.append.bytes@ == encode(chunk@[j].ids@)
                    },
                forall|j: int|
                    0 <= j < i ==> (#[trigger] routed@[j]).asks(
                        start.with_docs(docs.take(j)),
                        chunk@[j]@,
                    ),
            decreases chunk@.len() - i,
        {
            proof {
                assert(start.with_docs(docs.take(i as int)).has_room(docs[i as int]));
                assert(docs.take(i + 1).drop_last() =~= docs.take(i as int));
            }
            let one = self.push(&chunk[i]);
            routed.push(one);
            i = i + 1;
        }
        assert(docs.take(i as int) =~= docs);
        routed
    }

    /// Close both splits.
    pub fn finish(self) -> (closing: Closing)
        ensures
            closing.train.closes(self@.train),
            closing.valid.closes(self@.valid),
            closing.train.meta.tokens == self@.train.tokens,
            closing.train.meta.docs == self@.train.docs,
            closing.train.meta.bytes == self@.train.bytes,
            closing.valid.meta.tokens == self@.valid.tokens,
            closing.valid.meta.docs == self@.valid.docs,
            closing.valid.meta.bytes == self@.valid.bytes,
    {
        Closing { train: self.train.finish(), valid: self.valid.finish() }
    }
}

// ── what the split promises ──────────────────────────────────────────────────

/// The documents of one split, in order.
pub open spec fn docs_in(docs: Seq<Doc>, split: Split) -> Seq<Doc>
    decreases docs.len(),
{
    if docs.len() == 0 {
        Seq::empty()
    } else {
        let before = docs_in(docs.drop_last(), split);
        if split_of((docs.len() - 1) as nat) == split {
            before.push(docs.last())
        } else {
            before
        }
    }
}

/// Each split is a writing session of its own over its own documents.
pub proof fn each_split_is_a_session(docs: Seq<Doc>, vocab_size: usize, eos: u16)
    ensures
        ({
            let prep = Prep::none(vocab_size, eos).with_docs(docs);
            &&& prep.index == docs.len()
            &&& prep.train == session(docs_in(docs, Split::Train), vocab_size, eos).writer
            &&& prep.valid == session(docs_in(docs, Split::Valid), vocab_size, eos).writer
        }),
    decreases docs.len(),
{
    if docs.len() > 0 {
        each_split_is_a_session(docs.drop_last(), vocab_size, eos);
        let split = split_of((docs.len() - 1) as nat);
        assert(docs_in(docs, split).drop_last() =~= docs_in(docs.drop_last(), split));
    }
}

/// Every document lands in exactly one split: the two splits together hold as
/// many documents as came in, and of those one in [`VALID_EVERY`], counted from
/// the first, is held out.
pub proof fn every_document_is_in_one_split(docs: Seq<Doc>)
    ensures
        docs_in(docs, Split::Train).len() + docs_in(docs, Split::Valid).len() == docs.len(),
        docs_in(docs, Split::Valid).len() == (docs.len() + VALID_EVERY - 1) / VALID_EVERY as int,
    decreases docs.len(),
{
    if docs.len() > 0 {
        every_document_is_in_one_split(docs.drop_last());
    }
}

/// Document `i` stands in the split of its index, behind exactly the earlier
/// documents of that split.
pub proof fn a_document_stands_in_its_split(docs: Seq<Doc>, i: int)
    requires
        0 <= i < docs.len(),
    ensures
        ({
            let split = split_of(i as nat);
            let at = docs_in(docs.take(i), split).len() as int;
            at < docs_in(docs, split).len() && docs_in(docs, split)[at] == docs[i]
        }),
    decreases docs.len() - i,
{
    let split = split_of(i as nat);
    lemma_split_grows(docs, i + 1, split);
    assert(docs.take(i + 1).drop_last() =~= docs.take(i));
    let at = docs_in(docs.take(i), split).len() as int;
    assert(docs_in(docs.take(i + 1), split)[at] == docs[i]);
}

/// The split of a prefix is a prefix of the split.
proof fn lemma_split_grows(docs: Seq<Doc>, n: int, split: Split)
    requires
        0 <= n <= docs.len(),
    ensures
        docs_in(docs.take(n), split).len() <= docs_in(docs, split).len(),
        forall|k: int|
            0 <= k < docs_in(docs.take(n), split).len() ==> docs_in(docs.take(n), split)[k]
                == #[trigger] docs_in(docs, split)[k],
    decreases docs.len() - n,
{
    if n == docs.len() {
        assert(docs.take(n) =~= docs);
    } else {
        lemma_split_grows(docs, n + 1, split);
        assert(docs.take(n + 1).drop_last() =~= docs.take(n));
        let short = docs_in(docs.take(n), split);
        let long = docs_in(docs.take(n + 1), split);
        assert forall|k: int| 0 <= k < short.len() implies short[k] == #[trigger] docs_in(
            docs,
            split,
        )[k] by {
            assert(long[k] == short[k]);
        }
    }
}

/// A chunk fits where its documents fit one after another: an empty one always
/// does, and one document more fits where the rest did and it fits behind them.
pub proof fn a_chunk_fits_document_by_document(prep: Prep, docs: Seq<Doc>, doc: Doc)
    ensures
        prep.has_room_for(Seq::<Doc>::empty()),
        prep.with_docs(Seq::<Doc>::empty()) == prep,
        prep.has_room_for(docs.push(doc)) <==> prep.has_room_for(docs) && prep.with_docs(
            docs,
        ).has_room(doc),
        prep.with_docs(docs.push(doc)) == prep.with_docs(docs).with_doc(doc),
{
    let longer = docs.push(doc);
    assert(longer.drop_last() =~= docs);
    assert(longer.take(docs.len() as int) =~= docs);
    assert forall|i: int| 0 <= i < docs.len() implies longer.take(i) == #[trigger] docs.take(
        i,
    ) by {
        assert(longer.take(i) =~= docs.take(i));
    }
    if prep.has_room_for(longer) {
        assert forall|i: int| 0 <= i < docs.len() implies #[trigger] prep.with_docs(
            docs.take(i),
        ).has_room(docs[i]) by {
            assert(prep.with_docs(longer.take(i)).has_room(longer[i]));
        }
        assert(prep.with_docs(longer.take(docs.len() as int)).has_room(
            longer[docs.len() as int],
        ));
    }
    if prep.has_room_for(docs) && prep.with_docs(docs).has_room(doc) {
        assert forall|i: int| 0 <= i < longer.len() implies #[trigger] prep.with_docs(
            longer.take(i),
        ).has_room(longer[i]) by {
            if i < docs.len() {
                assert(prep.with_docs(docs.take(i)).has_room(docs[i]));
            }
        }
    }
}

/// Document `i` of a corpus is held out exactly where 200 divides `i`: it then
/// stands in validation behind the `i / 200` documents held out before it, and in
/// training otherwise, behind the documents before it that were not held out.
pub proof fn every_two_hundredth_document_is_held_out(docs: Seq<Doc>, i: int)
    requires
        0 <= i < docs.len(),
    ensures
        ({
            let held = (i + 199) / 200;
            &&& i % 200 == 0 ==> {
                &&& held < docs_in(docs, Split::Valid).len()
                &&& docs_in(docs, Split::Valid)[held] == docs[i]
            }
            &&& i % 200 != 0 ==> {
                &&& i - held < docs_in(docs, Split::Train).len()
                &&& docs_in(docs, Split::Train)[i - held] == docs[i]
            }
        }),
        docs_in(docs, Split::Valid).len() == (docs.len() + 199) / 200,
        docs_in(docs, Split::Train).len() == docs.len() - (docs.len() + 199) / 200,
{
    a_document_stands_in_its_split(docs, i);
    every_document_is_in_one_split(docs.take(i));
    every_document_is_in_one_split(docs);
}

/// The first document is held out.
pub proof fn the_first_document_is_validation(docs: Seq<Doc>)
    requires
        docs.len() > 0,
    ensures
        docs_in(docs, Split::Valid).len() > 0,
        docs_in(docs, Split::Valid)[0] == docs[0],
{
    a_document_stands_in_its_split(docs, 0);
    assert(docs.take(0) =~= Seq::empty());
}

/// The shards of a split, once closed, hold the tokens of its documents, and the
/// sidecar counts them.
pub proof fn the_shards_hold_the_split(docs: Seq<Doc>, vocab_size: usize, eos: u16, split: Split)
    ensures
        ({
            let own = docs_in(docs, split);
            let written = Prep::none(vocab_size, eos).with_docs(docs).of(split);
            &&& corpus(left_behind(session(own, vocab_size, eos))) == all_ids(own)
            &&& written.tokens == all_ids(own).len()
            &&& written.docs == own.len()
            &&& written.bytes == all_bytes(own)
        }),
{
    each_split_is_a_session(docs, vocab_size, eos);
    reading_gives_back_what_was_written(docs_in(docs, split), vocab_size, eos);
}

} // verus!
