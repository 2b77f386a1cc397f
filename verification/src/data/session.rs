//! A whole writing session, and what reading gives back of it.

use vstd::prelude::*;
use vstd::set_lib::*;
use vstd::utf8::*;

use crate::data::listing::{
    every_shard_is_picked_once, lists_shards, shards_are_read_as_written,
};
use crate::data::shard::{SHARD_BYTES, Written, corpus, decode, encode, shard_name};

verus! {

/// One encoded document: its tokens, and the bytes of its source text.
pub struct Doc {
    pub ids: Seq<u16>,
    pub bytes: nat,
}

/// A shard directory in the making: the writer's counts, and the bytes of every
/// shard file opened so far.
pub struct Session {
    pub writer: Written,
    pub files: Seq<Seq<u8>>,
}

/// `files` after one append: `bytes` at the end of the last file and, when
/// `rotate` is set, a new empty file behind it.
pub open spec fn appended(files: Seq<Seq<u8>>, bytes: Seq<u8>, rotate: bool) -> Seq<Seq<u8>> {
    let longer = files.update(files.len() - 1, files.last() + bytes);
    if rotate {
        longer.push(Seq::empty())
    } else {
        longer
    }
}

/// The session that writes `docs` one after another.
pub open spec fn session(docs: Seq<Doc>, vocab_size: usize, eos: u16) -> Session
    decreases docs.len(),
{
    if docs.len() == 0 {
        Session { writer: Written::none(vocab_size, eos), files: seq![Seq::empty()] }
    } else {
        let before = session(docs.drop_last(), vocab_size, eos);
        let doc = docs.last();
        Session {
            writer: before.writer.with_doc(doc.ids.len(), doc.bytes),
            files: appended(before.files, encode(doc.ids), before.writer.fills(doc.ids.len())),
        }
    }
}

/// The files that finishing leaves: all of them but a spare last one.
pub open spec fn left_behind(session: Session) -> Seq<Seq<u8>> {
    if session.writer.spare() {
        session.files.drop_last()
    } else {
        session.files
    }
}

/// The tokens of `docs`, one document after another.
pub open spec fn all_ids(docs: Seq<Doc>) -> Seq<u16>
    decreases docs.len(),
{
    if docs.len() == 0 {
        Seq::empty()
    } else {
        all_ids(docs.drop_last()) + docs.last().ids
    }
}

/// The source bytes of `docs` together.
pub open spec fn all_bytes(docs: Seq<Doc>) -> nat
    decreases docs.len(),
{
    if docs.len() == 0 {
        0
    } else {
        all_bytes(docs.drop_last()) + docs.last().bytes
    }
}

/// A document is counted once, and the shard it fills is closed behind it: with
/// the document in, an open shard holds less than 512 MiB, and the next one is open
/// and empty exactly where it would not.
pub proof fn a_full_shard_is_closed(written: Written, tokens: nat, bytes: nat)
    ensures
        ({
            let (after, held) = (written.with_doc(tokens, bytes), written.in_shard + 2 * tokens);
            &&& after.tokens == written.tokens + tokens
            &&& after.docs == written.docs + 1
            &&& after.bytes == written.bytes + bytes
            &&& after.vocab_size == written.vocab_size
            &&& after.eos == written.eos
            &&& after.in_shard < 512 * 1024 * 1024
            &&& held < 512 * 1024 * 1024 ==> after.in_shard == held && after.index == written.index
            &&& held >= 512 * 1024 * 1024 ==> after.in_shard == 0 && after.index == written.index
                + 1
        }),
{
}

/// Decoding undoes encoding.
pub proof fn decode_undoes_encode(tokens: Seq<u16>)
    ensures
        decode(encode(tokens)) == tokens,
{
    assert forall|i: int| 0 <= i < tokens.len() implies #[trigger] decode(encode(tokens))[i]
        == tokens[i] by {
        assert((2 * i) / 2 == i && (2 * i + 1) / 2 == i);
        assert(encode(tokens)[2 * i] == (tokens[i] % 256) as u8);
        assert(encode(tokens)[2 * i + 1] == (tokens[i] / 256) as u8);
    }
    assert(decode(encode(tokens)) =~= tokens);
}

/// Bytes appended to whole tokens decode to tokens appended to tokens.
proof fn lemma_decode_append(front: Seq<u8>, back: Seq<u8>)
    requires
        front.len() % 2 == 0,
    ensures
        decode(front + back) == decode(front) + decode(back),
{
    let joined = decode(front + back);
    let parts = decode(front) + decode(back);
    assert(joined.len() == parts.len());
    assert forall|i: int| 0 <= i < joined.len() implies joined[i] == parts[i] by {
        if 2 * i >= front.len() {
            assert((front + back)[2 * i] == back[2 * (i - front.len() / 2)]);
            assert((front + back)[2 * i + 1] == back[2 * (i - front.len() / 2) + 1]);
        }
    }
    assert(joined =~= parts);
}

proof fn lemma_corpus_append(files: Seq<Seq<u8>>, bytes: Seq<u8>, rotate: bool)
    requires
        files.len() > 0,
        files.last().len() % 2 == 0,
    ensures
        corpus(appended(files, bytes, rotate)) == corpus(files) + decode(bytes),
{
    let longer = files.update(files.len() - 1, files.last() + bytes);
    assert(longer.drop_last() =~= files.drop_last());
    lemma_decode_append(files.last(), bytes);
    assert(corpus(longer) =~= corpus(files) + decode(bytes));
    if rotate {
        let rotated = longer.push(Seq::empty());
        assert(rotated.drop_last() =~= longer);
        assert(decode(Seq::<u8>::empty()) =~= Seq::<u16>::empty());
        assert(corpus(rotated) =~= corpus(longer));
    }
}

/// What every point of a session keeps: one file per opened shard, the open one
/// holding what the writer counted and less than a full shard, every closed one
/// full, and the tokens of the documents in the files.
pub proof fn session_keeps_count(docs: Seq<Doc>, vocab_size: usize, eos: u16)
    ensures
        ({
            let s = session(docs, vocab_size, eos);
            &&& s.files.len() == s.writer.index + 1
            &&& s.files.last().len() == s.writer.in_shard
            &&& s.writer.in_shard < SHARD_BYTES
            &&& forall|k: int|
                0 <= k < s.writer.index ==> #[trigger] s.files[k].len() >= SHARD_BYTES
            &&& forall|k: int| 0 <= k < s.files.len() ==> #[trigger] s.files[k].len() % 2 == 0
            &&& corpus(s.files) == all_ids(docs)
            &&& s.writer.tokens == all_ids(docs).len()
            &&& s.writer.docs == docs.len()
            &&& s.writer.bytes == all_bytes(docs)
            &&& s.writer.vocab_size == vocab_size
            &&& s.writer.eos == eos
        }),
    decreases docs.len(),
{
    let s = session(docs, vocab_size, eos);
    if docs.len() == 0 {
        assert(s.files.drop_last() =~= Seq::empty());
        assert(decode(Seq::<u8>::empty()) =~= Seq::<u16>::empty());
        assert(corpus(s.files.drop_last()) =~= Seq::empty());
        assert(corpus(s.files) =~= Seq::<u16>::empty());
    } else {
        session_keeps_count(docs.drop_last(), vocab_size, eos);
        let before = session(docs.drop_last(), vocab_size, eos);
        let ids = docs.last().ids;
        lemma_corpus_append(before.files, encode(ids), before.writer.fills(ids.len()));
        decode_undoes_encode(ids);
    }
}

/// What was written is what is read: the files a finished session leaves hold
/// every token of every document, in order, and the sidecar counts them.
pub proof fn reading_gives_back_what_was_written(docs: Seq<Doc>, vocab_size: usize, eos: u16)
    ensures
        ({
            let s = session(docs, vocab_size, eos);
            &&& corpus(left_behind(s)) == all_ids(docs)
            &&& left_behind(s).len() >= 1
            &&& s.writer.tokens == all_ids(docs).len()
            &&& s.writer.docs == docs.len()
            &&& s.writer.bytes == all_bytes(docs)
        }),
{
    session_keeps_count(docs, vocab_size, eos);
    let s = session(docs, vocab_size, eos);
    if s.writer.spare() {
        assert(decode(s.files.last()) =~= Seq::<u16>::empty());
        assert(corpus(s.files) =~= corpus(s.files.drop_last()));
    }
}

/// No file that a finished session leaves is empty, unless no token was written
/// at all.
pub proof fn no_empty_shard_is_left(docs: Seq<Doc>, vocab_size: usize, eos: u16, k: int)
    requires
        all_ids(docs).len() > 0,
        0 <= k < left_behind(session(docs, vocab_size, eos)).len(),
    ensures
        left_behind(session(docs, vocab_size, eos))[k].len() > 0,
{
    session_keeps_count(docs, vocab_size, eos);
    let s = session(docs, vocab_size, eos);
    if s.writer.index == 0 {
        assert(s.files.drop_last() =~= Seq::empty());
        assert(corpus(s.files.drop_last()) =~= Seq::empty());
        assert(corpus(s.files) =~= decode(s.files.last()));
    }
}

/// A finished directory of up to 10 000 shards, whose files are met in any
/// order, reads back as what was written: file `f` is shard `number[f]`, holds
/// what the session left there, and the files are read in the order `picked`.
pub proof fn a_written_directory_reads_back(
    docs: Seq<Doc>,
    vocab_size: usize,
    eos: u16,
    names: Seq<Seq<u8>>,
    contents: Seq<Seq<u8>>,
    number: Seq<nat>,
    picked: Seq<usize>,
)
    requires
        ({
            let left = left_behind(session(docs, vocab_size, eos));
            &&& left.len() == names.len() == contents.len() == number.len() <= 10_000
            &&& number.no_duplicates()
            &&& forall|f: int| 0 <= f < number.len() ==> #[trigger] number[f] < number.len()
            &&& forall|f: int|
                0 <= f < names.len() ==> #[trigger] names[f] == encode_utf8(shard_name(number[f]))
            &&& forall|f: int|
                0 <= f < contents.len() ==> #[trigger] contents[f] == left[number[f] as int]
            &&& lists_shards(names, picked)
        }),
    ensures
        corpus(Seq::new(picked.len(), |a: int| contents[picked[a] as int])) == all_ids(docs),
{
    let left = left_behind(session(docs, vocab_size, eos));
    shards_are_read_as_written(names, number, picked);
    reading_gives_back_what_was_written(docs, vocab_size, eos);
    let read = Seq::new(picked.len(), |a: int| contents[picked[a] as int]);
    assert forall|a: int| 0 <= a < read.len() implies read[a] == left[a] by {
        assert(picked[a] < names.len());
        assert(number[picked[a] as int] == a);
        assert(contents[picked[a] as int] == left[a]);
    }
    assert(read =~= left);
}

/// Taking one file out takes its tokens out, and no others.
proof fn lemma_corpus_without(files: Seq<Seq<u8>>, at: int)
    requires
        0 <= at < files.len(),
    ensures
        corpus(files).len() == corpus(files.remove(at)).len() + decode(files[at]).len(),
    decreases files.len(),
{
    if at == files.len() - 1 {
        assert(files.remove(at) =~= files.drop_last());
    } else {
        lemma_corpus_without(files.drop_last(), at);
        assert(files.remove(at).drop_last() =~= files.drop_last().remove(at));
        assert(files.remove(at).last() == files.last());
    }
}

/// As many different numbers below `n` as `n` include `n - 1`.
proof fn lemma_includes_last(order: Seq<int>)
    requires
        order.len() > 0,
        order.no_duplicates(),
        forall|i: int| 0 <= i < order.len() ==> 0 <= #[trigger] order[i] < order.len(),
    ensures
        order.contains(order.len() - 1),
{
    let n = order.len() as int;
    order.unique_seq_to_set();
    lemma_int_range(0, n);
    assert(order.to_set().subset_of(set_int_range(0, n)));
    lemma_subset_equality(order.to_set(), set_int_range(0, n));
    assert(set_int_range(0, n).contains(n - 1));
    assert(order.to_set().contains(n - 1));
}

/// Files read in any order hold as many tokens.
proof fn lemma_order_keeps_count(files: Seq<Seq<u8>>, order: Seq<int>)
    requires
        order.len() == files.len(),
        order.no_duplicates(),
        forall|i: int| 0 <= i < order.len() ==> 0 <= #[trigger] order[i] < files.len(),
    ensures
        corpus(Seq::new(order.len(), |i: int| files[order[i]])).len() == corpus(files).len(),
    decreases files.len(),
{
    let read = Seq::new(order.len(), |i: int| files[order[i]]);
    if files.len() == 0 {
        assert(read =~= files);
    } else {
        lemma_includes_last(order);
        let last = files.len() - 1;
        let at = choose|at: int| 0 <= at < order.len() && order[at] == last;
        let rest = order.remove(at);
        assert forall|i: int| 0 <= i < rest.len() implies 0 <= #[trigger] rest[i] < last by {
            let from = if i < at {
                i
            } else {
                i + 1
            };
            assert(rest[i] == order[from]);
        }
        lemma_order_keeps_count(files.drop_last(), rest);
        let shorter = Seq::new(rest.len(), |i: int| files.drop_last()[rest[i]]);
        assert(read.remove(at) =~= shorter);
        lemma_corpus_without(read, at);
    }
}

/// A finished directory holds as many tokens as its sidecar counts, however many
/// shards there are and in whatever order they are met and read: file `f` is shard
/// `number[f]` and holds what the session left there.
pub proof fn a_written_directory_holds_every_token(
    docs: Seq<Doc>,
    vocab_size: usize,
    eos: u16,
    names: Seq<Seq<u8>>,
    contents: Seq<Seq<u8>>,
    number: Seq<nat>,
    picked: Seq<usize>,
)
    requires
        ({
            let left = left_behind(session(docs, vocab_size, eos));
            &&& left.len() == names.len() == contents.len() == number.len() <= usize::MAX
            &&& number.no_duplicates()
            &&& forall|f: int| 0 <= f < number.len() ==> #[trigger] number[f] < number.len()
            &&& forall|f: int|
                0 <= f < names.len() ==> #[trigger] names[f] == encode_utf8(shard_name(number[f]))
            &&& forall|f: int|
                0 <= f < contents.len() ==> #[trigger] contents[f] == left[number[f] as int]
            &&& lists_shards(names, picked)
        }),
    ensures
        ({
            let read = corpus(Seq::new(picked.len(), |a: int| contents[picked[a] as int]));
            &&& read.len() == all_ids(docs).len()
            &&& read.len() == session(docs, vocab_size, eos).writer.tokens
        }),
{
    let left = left_behind(session(docs, vocab_size, eos));
    every_shard_is_picked_once(names, number, picked);
    reading_gives_back_what_was_written(docs, vocab_size, eos);
    let order = Seq::new(picked.len(), |a: int| number[picked[a] as int] as int);
    assert forall|i: int| 0 <= i < order.len() implies 0 <= #[trigger] order[i] < left.len() by {
        assert(picked[i] < names.len());
    }
    assert forall|i: int, j: int|
        0 <= i < order.len() && 0 <= j < order.len() && i != j implies order[i] != order[j] by {
        assert(picked[i] < names.len() && picked[j] < names.len());
        assert(picked[i] != picked[j]);
    }
    lemma_order_keeps_count(left, order);
    assert forall|a: int| 0 <= a < picked.len() implies contents[picked[a] as int]
        == left[order[a]] by {
        assert(picked[a] < names.len());
    }
    assert(Seq::new(picked.len(), |a: int| contents[picked[a] as int]) =~= Seq::new(
        order.len(),
        |i: int| left[order[i]],
    ));
}

} // verus!
