//! The on-disk token format: little-endian `u16` shards plus one sidecar.
//!
//! `u16` caps the vocabulary at 65 535, which halves the corpus on disk against
//! a `u32` format. Shards are read through memory maps, so the page cache is
//! the data loader.

use vstd::arithmetic::overflow::CheckedUsize;
use vstd::prelude::*;
use vstd::string::*;

use crate::text::{decimal_text, padded_decimal, zero_padded};

verus! {

/// Bytes per shard file before rotating. 512 MB keeps a shard mappable
/// everywhere and keeps the file count sane for a 100B-token corpus.
pub const SHARD_BYTES: usize = 536_870_912;

/// What a shard directory contains, beside the tokens.
#[derive(Debug, Clone, Copy, PartialEq, Eq, Structural)]
pub struct Meta {
    pub tokens: u64,
    pub docs: u64,
    /// UTF-8 bytes of the source text, so evaluation can report bits-per-byte,
    /// the only measure comparable across tokenizers.
    pub bytes: u64,
    pub vocab_size: usize,
    pub eos: u16,
}

// ── the token codec ──────────────────────────────────────────────────────────

/// The token that two bytes hold, low byte first.
pub open spec fn token_of(low: u8, high: u8) -> u16 {
    (low + 256 * high) as u16
}

/// The tokens that `bytes` hold; an odd last byte holds none.
pub open spec fn decode(bytes: Seq<u8>) -> Seq<u16> {
    Seq::new(bytes.len() / 2, |i: int| token_of(bytes[2 * i], bytes[2 * i + 1]))
}

/// The bytes that hold `tokens`.
pub open spec fn encode(tokens: Seq<u16>) -> Seq<u8> {
    Seq::new(
        2 * tokens.len(),
        |i: int|
            if i % 2 == 0 {
                (tokens[i / 2] % 256) as u8
            } else {
                (tokens[i / 2] / 256) as u8
            },
    )
}

/// The tokens of several shard files, end to end.
pub open spec fn corpus(files: Seq<Seq<u8>>) -> Seq<u16>
    decreases files.len(),
{
    if files.len() == 0 {
        Seq::empty()
    } else {
        corpus(files.drop_last()) + decode(files.last())
    }
}

// ── memory maps ──────────────────────────────────────────────────────────────

/// The read-only memory map of the `memmap2` crate.
#[verifier::external_type_specification]
#[verifier::external_body]
pub struct ExMmap(memmap2::Mmap);

/// The bytes behind a map.
pub uninterp spec fn contents(map: memmap2::Mmap) -> Seq<u8>;

/// `memmap2::Mmap` dereferenced to the slice it maps (`Deref::deref`).
///
/// Trusted: that the slice holds the bytes behind the map, and that they stay
/// the same while the map lives. The second is what the `unsafe` constructor of
/// a file-backed map demands of its caller.
#[verifier::external_body]
fn mapped(map: &memmap2::Mmap) -> (bytes: &[u8])
    ensures
        bytes@ == contents(*map),
{
    map
}

/// The bytes behind each of several maps.
pub open spec fn files_of(maps: Seq<memmap2::Mmap>) -> Seq<Seq<u8>> {
    Seq::new(maps.len(), |i: int| contents(maps[i]))
}

// ── reading ──────────────────────────────────────────────────────────────────

/// Why a shard directory cannot be opened.
#[derive(Debug, Clone, Copy, PartialEq, Eq, Structural)]
pub enum OpenError {
    /// The directory holds no `.bin` shards.
    NoShards,
}

/// A read-only, memory-mapped corpus: the shards concatenated end to end.
#[derive(Debug)]
pub struct Shards {
    maps: Vec<memmap2::Mmap>,
    /// `starts[i]` is the token index where shard `i` begins; the last entry is
    /// the total, so a binary search over it locates any global index.
    starts: Vec<usize>,
    meta: Meta,
}

/// `starts` holds the running token count in front of each of `files`.
spec fn running(starts: Seq<usize>, files: Seq<Seq<u8>>) -> bool {
    &&& starts.len() == files.len() + 1
    &&& forall|k: int| 0 <= k < starts.len() ==> #[trigger] starts[k] == corpus(files.take(k)).len()
}

proof fn lemma_take_next(files: Seq<Seq<u8>>, k: int)
    requires
        0 <= k < files.len(),
    ensures
        corpus(files.take(k + 1)) == corpus(files.take(k)) + decode(files[k]),
{
    assert(files.take(k + 1).drop_last() =~= files.take(k));
    assert(files.take(k + 1).last() == files[k]);
}

/// The tokens of the first `k` files are a prefix of the whole corpus.
proof fn lemma_take_prefix(files: Seq<Seq<u8>>, k: int)
    requires
        0 <= k <= files.len(),
    ensures
        corpus(files.take(k)).len() <= corpus(files).len(),
        corpus(files).take(corpus(files.take(k)).len() as int) == corpus(files.take(k)),
    decreases files.len() - k,
{
    if k == files.len() {
        assert(files.take(k) =~= files);
        assert(corpus(files).take(corpus(files).len() as int) =~= corpus(files));
    } else {
        lemma_take_prefix(files, k + 1);
        lemma_take_next(files, k);
        let short = corpus(files.take(k));
        let long = corpus(files.take(k + 1));
        assert(long.take(short.len() as int) =~= short);
        assert(corpus(files).take(short.len() as int) =~= corpus(files).take(
            long.len() as int,
        ).take(short.len() as int));
    }
}

/// A token of file `k`, found in the whole corpus.
proof fn lemma_locate(files: Seq<Seq<u8>>, k: int, local: int)
    requires
        0 <= k < files.len(),
        0 <= local < decode(files[k]).len(),
    ensures
        corpus(files.take(k)).len() + local < corpus(files).len(),
        corpus(files)[corpus(files.take(k)).len() + local] == decode(files[k])[local],
{
    lemma_take_next(files, k);
    lemma_take_prefix(files, k + 1);
    let at = corpus(files.take(k)).len() + local;
    let long = corpus(files.take(k + 1));
    assert(corpus(files).take(long.len() as int)[at] == corpus(files)[at]);
}

impl View for Shards {
    type V = Seq<u16>;

    /// Every token of the corpus, in order.
    closed spec fn view(&self) -> Seq<u16> {
        corpus(files_of(self.maps@))
    }
}

impl Shards {
    #[verifier::type_invariant]
    spec fn indexed(self) -> bool {
        &&& self.maps@.len() > 0
        &&& running(self.starts@, files_of(self.maps@))
    }

    /// The sidecar that the corpus was opened with.
    pub closed spec fn sidecar(self) -> Meta {
        self.meta
    }

    /// Whether the tokens behind the maps can be counted.
    pub fn can_open(maps: &Vec<memmap2::Mmap>) -> (fits: bool)
        ensures
            fits == (corpus(files_of(maps@)).len() <= usize::MAX),
    {
        let ghost files = files_of(maps@);
        let mut total = CheckedUsize::new(0);
        let mut k: usize = 0;
        assert(files.take(0) =~= Seq::empty());
        while k < maps.len()
            invariant
                files == files_of(maps@),
                k <= maps@.len(),
                total@ == corpus(files.take(k as int)).len(),
            decreases maps@.len() - k,
        {
            let len: usize = mapped(&maps[k]).len();
            proof {
                lemma_take_next(files, k as int);
            }
            total = total.add_value(len / 2);
            k = k + 1;
        }
        assert(files.take(k as int) =~= files);
        !total.is_overflowed()
    }

    /// Put the maps of a directory's shards, in the order of their names, behind
    /// one index.
    pub fn open(maps: Vec<memmap2::Mmap>, meta: Meta) -> (opened: Result<Self, OpenError>)
        requires
            corpus(files_of(maps@)).len() <= usize::MAX,
        ensures
            opened is Err <==> maps@.len() == 0,
            opened matches Err(error) ==> error == OpenError::NoShards,
            opened matches Ok(shards) ==> {
                &&& shards@ == corpus(files_of(maps@))
                &&& shards.sidecar() == meta
            },
    {
        if maps.len() == 0 {
            return Err(OpenError::NoShards);
        }
        let ghost files = files_of(maps@);
        let mut starts: Vec<usize> = Vec::new();
        starts.push(0);
        let mut total: usize = 0;
        let mut k: usize = 0;
        assert(files.take(0) =~= Seq::empty());
        while k < maps.len()
            invariant
                files == files_of(maps@),
                corpus(files).len() <= usize::MAX,
                k <= maps@.len(),
                running(starts@, files.take(k as int)),
                total == starts@[k as int],
            decreases maps@.len() - k,
        {
            let ghost before = starts@;
            let len = mapped(&maps[k]).len();
            proof {
                lemma_take_next(files, k as int);
                lemma_take_prefix(files, k + 1);
                assert(files.take(k as int).take(k as int) =~= files.take(k as int));
                assert(total == corpus(files.take(k as int)).len());
            }
            total = total + len / 2;
            starts.push(total);
            k = k + 1;
            assert forall|j: int| 0 <= j < starts@.len() implies #[trigger] starts@[j] == corpus(
                files.take(k as int).take(j),
            ).len() by {
                assert(files.take(k as int).take(j) =~= files.take(j));
                if j < k {
                    assert(before[j] == corpus(files.take(k - 1).take(j)).len());
                    assert(files.take(k - 1).take(j) =~= files.take(j));
                }
            }
        }
        assert(files.take(k as int) =~= files);
        Ok(Self { maps, starts, meta })
    }

    /// The sidecar of the directory.
    pub fn meta(&self) -> (meta: &Meta)
        ensures
            *meta == self.sidecar(),
    {
        &self.meta
    }

    /// Total tokens across all shards.
    pub fn len(&self) -> (len: usize)
        ensures
            len == self@.len(),
    {
        proof {
            use_type_invariant(self);
            let files = files_of(self.maps@);
            assert(files.take(files.len() as int) =~= files);
        }
        self.starts[self.starts.len() - 1]
    }

    /// Whether the corpus holds no token.
    pub fn is_empty(&self) -> (empty: bool)
        ensures
            empty == (self@.len() == 0),
    {
        self.len() == 0
    }

    /// The last shard that begins at or before token `start`, by binary search.
    fn shard_at(&self, start: usize) -> (shard: usize)
        ensures
            shard < self.starts@.len(),
            self.starts@[shard as int] <= start,
            shard + 1 < self.starts@.len() ==> start < self.starts@[shard + 1],
    {
        proof {
            use_type_invariant(self);
            assert(files_of(self.maps@).take(0) =~= Seq::empty());
        }
        let mut low: usize = 0;
        let mut high: usize = self.starts.len();
        while high - low > 1
            invariant
                low < high <= self.starts@.len(),
                self.starts@[low as int] <= start,
                high < self.starts@.len() ==> start < self.starts@[high as int],
            decreases high - low,
        {
            let mid: usize = low + (high - low) / 2;
            if self.starts[mid] <= start {
                low = mid;
            } else {
                high = mid;
            }
        }
        low
    }

    /// Copy `len` tokens starting at global index `start` into `out`.
    pub fn read(&self, start: usize, len: usize, out: &mut Vec<u16>)
        requires
            start + len <= self@.len(),
        ensures
            final(out)@ == self@.subrange(start as int, start + len),
    {
        proof {
            use_type_invariant(self);
        }
        let ghost files = files_of(self.maps@);
        proof {
            assert(files.take(files.len() as int) =~= files);
            assert(self.starts@[files.len() as int] == corpus(files).len());
        }
        out.clear();
        let mut shard = self.shard_at(start);
        let count: usize = self.maps.len();
        let mut cursor: usize = start;
        while out.len() < len
            invariant
                files == files_of(self.maps@),
                count == self.maps@.len(),
                running(self.starts@, files),
                start + len <= self@.len(),
                self@ == corpus(files),
                self@.len() == self.starts@[files.len() as int],
                cursor == start + out@.len(),
                out@.len() <= len,
                out@ == self@.subrange(start as int, cursor as int),
                out@.len() < len ==> {
                    &&& shard < self.starts@.len()
                    &&& self.starts@[shard as int] <= cursor
                    &&& shard + 1 < self.starts@.len() ==> cursor <= self.starts@[shard + 1]
                },
            decreases self.starts@.len() - shard, len - out@.len(),
        {
            proof {
                if shard == files.len() {
                    assert(false);
                }
                lemma_take_next(files, shard as int);
            }
            let local: usize = cursor - self.starts[shard];
            let bytes = mapped(&self.maps[shard]);
            let size: usize = bytes.len();
            let held: usize = size / 2;
            assert(self.starts@[shard + 1] == self.starts@[shard as int] + held);
            let want: usize = len - out.len();
            let take: usize = if want < held - local {
                want
            } else {
                held - local
            };
            let end: usize = local + take;
            let mut i: usize = local;
            while i < end
                invariant
                    files == files_of(self.maps@),
                    self@ == corpus(files),
                    shard < self.maps@.len(),
                    running(self.starts@, files),
                    bytes@ == contents(self.maps@[shard as int]),
                    local <= i <= end <= held,
                    size == bytes@.len(),
                    held == size / 2,
                    start + len <= self@.len(),
                    cursor == self.starts@[shard as int] + local,
                    start <= cursor,
                    cursor + (end - local) <= start + len,
                    out@ == self@.subrange(start as int, cursor + (i - local)),
                decreases end - i,
            {
                let low: u8 = bytes[2 * i];
                let high: u8 = bytes[2 * i + 1];
                let token: u16 = low as u16 + 256 * (high as u16);
                proof {
                    lemma_locate(files, shard as int, i as int);
                    assert(self@[cursor + (i - local)] == token);
                }
                out.push(token);
                i = i + 1;
                assert(out@ =~= self@.subrange(start as int, cursor + (i - local)));
            }
            cursor = cursor + take;
            shard = shard + 1;
            proof {
                if shard < files.len() {
                    lemma_take_next(files, shard as int);
                    assert(self.starts@[shard as int] <= self.starts@[shard + 1]);
                }
            }
        }
    }
}

// ── what reading promises ────────────────────────────────────────────────────

/// A token is its low byte and 256 times its high byte, low byte first; an odd last
/// byte is no token.
pub proof fn tokens_are_little_endian(bytes: Seq<u8>, i: int)
    ensures
        decode(bytes).len() == bytes.len() / 2,
        0 <= i < decode(bytes).len() ==> decode(bytes)[i] == bytes[2 * i] + 256 * bytes[2 * i + 1],
{
}

/// Two bytes per token, the low one first.
pub proof fn a_token_takes_two_bytes(tokens: Seq<u16>, i: int)
    ensures
        encode(tokens).len() == 2 * tokens.len(),
        0 <= i < tokens.len() ==> {
            &&& encode(tokens)[2 * i] + 256 * encode(tokens)[2 * i + 1] == tokens[i]
            &&& encode(tokens)[2 * i] == tokens[i] % 256
        },
{
}

/// A corpus is its files end to end: none holds nothing, one holds its own tokens,
/// and two runs of files hold the tokens of the first and then those of the
/// second.
pub proof fn a_corpus_is_its_files_end_to_end(a: Seq<Seq<u8>>, b: Seq<Seq<u8>>, file: Seq<u8>)
    ensures
        corpus(Seq::<Seq<u8>>::empty()) == Seq::<u16>::empty(),
        corpus(seq![file]) == decode(file),
        corpus(a + b) == corpus(a) + corpus(b),
    decreases b.len(),
{
    reveal_with_fuel(corpus, 2);
    assert(seq![file].drop_last() =~= Seq::<Seq<u8>>::empty());
    assert(corpus(seq![file]) =~= decode(file));
    if b.len() == 0 {
        assert(a + b =~= a);
        assert(corpus(a + b) =~= corpus(a) + corpus(b));
    } else {
        a_corpus_is_its_files_end_to_end(a, b.drop_last(), file);
        assert((a + b).drop_last() =~= a + b.drop_last());
        assert((a + b).last() == b.last());
        assert(corpus(a + b) =~= corpus(a) + corpus(b));
    }
}

/// The files of a corpus are the bytes behind its maps, one for one.
pub proof fn a_file_stands_behind_each_map(maps: Seq<memmap2::Mmap>, i: int)
    ensures
        files_of(maps).len() == maps.len(),
        0 <= i < maps.len() ==> files_of(maps)[i] == contents(maps[i]),
{
}

// ── writing ──────────────────────────────────────────────────────────────────

/// The name of shard `index`.
pub open spec fn shard_name(index: nat) -> Seq<char> {
    "shard_"@ + zero_padded(decimal_text(index), 4) + ".bin"@
}

/// The path of shard `index`, relative to the directory that holds it.
pub fn shard_path(index: usize) -> (path: String)
    ensures
        path@ == shard_name(index as nat),
        path@ == "shard_"@ + zero_padded(decimal_text(index as nat), 4) + ".bin"@,
{
    let mut path = String::new();
    path.append("shard_");
    path.append(padded_decimal(index, 4).as_str());
    path.append(".bin");
    assert(path@ =~= shard_name(index as nat));
    path
}

/// What a [`Writer`] has counted so far.
pub struct Written {
    /// The shard being written.
    pub index: nat,
    /// The bytes it holds.
    pub in_shard: nat,
    pub tokens: nat,
    pub docs: nat,
    pub bytes: nat,
    pub vocab_size: usize,
    pub eos: u16,
}

impl Written {
    /// Nothing written, shard zero open.
    pub open spec fn none(vocab_size: usize, eos: u16) -> Written {
        Written { index: 0, in_shard: 0, tokens: 0, docs: 0, bytes: 0, vocab_size, eos }
    }

    /// Whether a document of `tokens` tokens fills the open shard.
    pub open spec fn fills(self, tokens: nat) -> bool {
        self.in_shard + 2 * tokens >= SHARD_BYTES
    }

    /// The counts after one more document.
    pub open spec fn with_doc(self, tokens: nat, bytes: nat) -> Written {
        let full = self.fills(tokens);
        Written {
            index: if full { self.index + 1 } else { self.index },
            in_shard: if full { 0 } else { self.in_shard + 2 * tokens },
            tokens: self.tokens + tokens,
            docs: self.docs + 1,
            bytes: self.bytes + bytes,
            ..self
        }
    }

    /// Whether the counts of one more document fit their integers.
    pub open spec fn has_room(self, tokens: nat, bytes: nat) -> bool {
        &&& self.in_shard + 2 * tokens <= usize::MAX
        &&& self.tokens + tokens <= u64::MAX
        &&& self.docs + 1 <= u64::MAX
        &&& self.bytes + bytes <= u64::MAX
        &&& self.fills(tokens) ==> self.index + 1 <= usize::MAX
    }

    /// Whether the open shard is a spare one that finishing removes: it is empty
    /// and not the only shard.
    pub open spec fn spare(self) -> bool {
        self.in_shard == 0 && self.index > 0
    }
}

/// What one document asks of the shard directory: `bytes` at the end of the open
/// shard, and then, if `next` names a file, that file as the open shard.
#[derive(Debug, PartialEq, Eq)]
pub struct Append {
    pub bytes: Vec<u8>,
    pub next: Option<String>,
}

/// What finishing asks of the shard directory: the removal of `remove`, if it
/// names a file, and `meta` as the sidecar.
#[derive(Debug, PartialEq, Eq)]
pub struct Finished {
    pub remove: Option<String>,
    pub meta: Meta,
}

impl Finished {
    /// Whether this is what closing a writer with these counts asks.
    pub open spec fn closes(self, written: Written) -> bool {
        &&& self.remove is Some <==> written.spare()
        &&& self.remove matches Some(name) ==> name@ == shard_name(written.index)
        &&& self.meta.tokens == written.tokens
        &&& self.meta.docs == written.docs
        &&& self.meta.bytes == written.bytes
        &&& self.meta.vocab_size == written.vocab_size
        &&& self.meta.eos == written.eos
    }
}

/// Decides how a shard directory is written, rotating files at
/// [`SHARD_BYTES`].
#[derive(Debug, Clone, Copy, PartialEq, Eq)]
pub struct Writer {
    index: usize,
    in_shard: usize,
    meta: Meta,
}

impl View for Writer {
    type V = Written;

    closed spec fn view(&self) -> Written {
        Written {
            index: self.index as nat,
            in_shard: self.in_shard as nat,
            tokens: self.meta.tokens as nat,
            docs: self.meta.docs as nat,
            bytes: self.meta.bytes as nat,
            vocab_size: self.meta.vocab_size,
            eos: self.meta.eos,
        }
    }
}

impl Writer {
    /// A writer with shard zero open and empty.
    pub fn create(vocab_size: usize, eos: u16) -> (writer: Self)
        ensures
            writer@ == Written::none(vocab_size, eos),
            writer@ == (Written {
                index: 0,
                in_shard: 0,
                tokens: 0,
                docs: 0,
                bytes: 0,
                vocab_size,
                eos,
            }),
    {
        Self {
            index: 0,
            in_shard: 0,
            meta: Meta { tokens: 0, docs: 0, bytes: 0, vocab_size, eos },
        }
    }

    /// Whether the counts of one more document would fit.
    pub fn can_push(&self, tokens: usize, bytes: usize) -> (fits: bool)
        ensures
            fits == self@.has_room(tokens as nat, bytes as nat),
            fits <==> {
                let held = self@.in_shard + 2 * tokens;
                &&& held <= usize::MAX
                &&& self@.tokens + tokens <= u64::MAX
                &&& self@.docs < u64::MAX
                &&& self@.bytes + bytes <= u64::MAX
                &&& held >= 536_870_912 ==> self@.index < usize::MAX
            },
    {
        if tokens > usize::MAX / 2 || self.in_shard > usize::MAX - tokens * 2 {
            return false;
        }
        let full = self.in_shard + tokens * 2 >= SHARD_BYTES;
        self.meta.tokens <= u64::MAX - tokens as u64 && self.meta.docs < u64::MAX
            && self.meta.bytes <= u64::MAX - bytes as u64 && !(full && self.index == usize::MAX)
    }

    /// Append one document's tokens; the caller has already appended EOS.
    pub fn push(&mut self, tokens: &[u16], bytes: usize) -> (append: Append)
        requires
            old(self)@.has_room(tokens@.len(), bytes as nat),
        ensures
            final(self)@ == old(self)@.with_doc(tokens@.len(), bytes as nat),
            append.bytes@ == encode(tokens@),
            append.next is Some <==> old(self)@.fills(tokens@.len()),
            append.next matches Some(name) ==> name@ == shard_name(final(self)@.index),
            append.bytes@.len() == 2 * tokens@.len(),
            forall|p: int|
                0 <= p < append.bytes@.len() ==> #[trigger] append.bytes@[p] == if p % 2 == 0 {
                    tokens@[p / 2] % 256
                } else {
                    tokens@[p / 2] / 256
                },
            ({
                let (before, after) = (old(self)@, final(self)@);
                let held = before.in_shard + 2 * tokens@.len();
                &&& after.tokens == before.tokens + tokens@.len()
                &&& after.docs == before.docs + 1
                &&& after.bytes == before.bytes + bytes
                &&& after.vocab_size == before.vocab_size
                &&& after.eos == before.eos
                &&& held < 536_870_912 ==> {
                    &&& append.next is None
                    &&& after.index == before.index
                    &&& after.in_shard == held
                }
                &&& held >= 536_870_912 ==> {
                    &&& append.next is Some
                    &&& after.index == before.index + 1
                    &&& after.in_shard == 0
                }
            }),
    {
        let count: usize = tokens.len();
        let mut data: Vec<u8> = Vec::new();
        let mut i: usize = 0;
        while i < count
            invariant
                count == tokens@.len(),
                i <= count,
                data@ == encode(tokens@.take(i as int)),
            decreases count - i,
        {
            let token: u16 = tokens[i];
            data.push((token % 256) as u8);
            data.push((token / 256) as u8);
            i = i + 1;
            assert(data@ =~= encode(tokens@.take(i as int)));
        }
        assert(tokens@.take(count as int) =~= tokens@);
        let next = if self.count(count, bytes) {
            Some(shard_path(self.index))
        } else {
            None
        };
        Append { bytes: data, next }
    }

    /// Count one document; whether it filled the open shard, so that the next is
    /// open now, comes back.
    pub(crate) fn count(&mut self, tokens: usize, bytes: usize) -> (rotated: bool)
        requires
            old(self)@.has_room(tokens as nat, bytes as nat),
        ensures
            final(self)@ == old(self)@.with_doc(tokens as nat, bytes as nat),
            rotated == old(self)@.fills(tokens as nat),
    {
        self.in_shard = self.in_shard + tokens * 2;
        self.meta.tokens = self.meta.tokens + tokens as u64;
        self.meta.docs = self.meta.docs + 1;
        self.meta.bytes = self.meta.bytes + bytes as u64;
        let full = self.in_shard >= SHARD_BYTES;
        if full {
            self.rotate();
        }
        full
    }

    /// Open the next shard.
    fn rotate(&mut self)
        requires
            old(self)@.index + 1 <= usize::MAX,
        ensures
            final(self)@ == (Written {
                index: old(self)@.index + 1,
                in_shard: 0,
                ..old(self)@
            }),
    {
        self.index = self.index + 1;
        self.in_shard = 0;
    }

    /// Close the last shard and hand over the sidecar.
    pub fn finish(self) -> (finished: Finished)
        ensures
            finished.closes(self@),
            finished.meta.tokens == self@.tokens,
            finished.meta.docs == self@.docs,
            finished.meta.bytes == self@.bytes,
            finished.meta.vocab_size == self@.vocab_size,
            finished.meta.eos == self@.eos,
            finished.remove is Some <==> self@.in_shard == 0 && self@.index > 0,
            finished.remove matches Some(name) ==> name@ == shard_name(self@.index),
    {
        let remove = if self.in_shard == 0 && self.index > 0 {
            Some(shard_path(self.index))
        } else {
            None
        };
        Finished { remove, meta: self.meta }
    }
}

} // verus!
