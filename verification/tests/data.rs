//! Shards, the corpus split and file names.

use memmap2::{Mmap, MmapMut};
use quasar::data::listing::order;
use quasar::data::prepare::{CHUNK, Chunker, Encoded, Error, Preparer, Split};
use quasar::data::shard::{OpenError, SHARD_BYTES, Writer, shard_path};
use quasar::data::{Meta, Shards};
use quasar::text::{contains, decimal, padded_decimal};

/// A directory in memory: file names and what the files hold.
struct Dir {
    files: Vec<(String, Vec<u8>)>,
}

impl Dir {
    fn new() -> Self {
        Self { files: vec![(shard_path(0), Vec::new())] }
    }

    fn append(&mut self, bytes: &[u8], next: Option<String>) {
        self.files.last_mut().unwrap().1.extend_from_slice(bytes);
        if let Some(name) = next {
            self.files.push((name, Vec::new()));
        }
    }

    fn remove(&mut self, name: Option<String>) {
        self.files.retain(|(file, _)| Some(file) != name.as_ref());
    }

    fn open(&self, meta: Meta) -> Result<Shards, OpenError> {
        let names: Vec<Vec<u8>> =
            self.files.iter().map(|(name, _)| name.clone().into_bytes()).collect();
        let maps = order(&names).into_iter().map(|i| map(&self.files[i].1)).collect();
        assert!(Shards::can_open(&maps));
        Shards::open(maps, meta)
    }
}

fn map(bytes: &[u8]) -> Mmap {
    let mut map = MmapMut::map_anon(bytes.len()).unwrap();
    map.copy_from_slice(bytes);
    map.make_read_only().unwrap()
}

fn meta() -> Meta {
    Meta { tokens: 0, docs: 0, bytes: 0, vocab_size: 64, eos: 0 }
}

fn written(docs: &[&[u16]]) -> Shards {
    let mut dir = Dir::new();
    let mut writer = Writer::create(64, 0);
    for doc in docs {
        assert!(writer.can_push(doc.len(), doc.len()));
        let append = writer.push(doc, doc.len());
        dir.append(&append.bytes, append.next);
    }
    let finished = writer.finish();
    dir.remove(finished.remove);
    dir.open(finished.meta).unwrap()
}

#[test]
fn a_roundtrip_preserves_every_token() {
    let shards = written(&[&[1, 2, 3], &[4, 5]]);

    let mut out = Vec::new();
    shards.read(0, 5, &mut out);

    assert_eq!(out, [1, 2, 3, 4, 5]);
}

#[test]
fn meta_counts_documents_and_bytes() {
    let shards = written(&[&[1, 2, 3], &[4, 5]]);

    let meta = shards.meta();

    assert_eq!((meta.tokens, meta.docs, meta.bytes), (5, 2, 5));
}

#[test]
fn a_window_may_start_anywhere() {
    let shards = written(&[&[1, 2, 3, 4, 5, 6]]);

    let mut out = Vec::new();
    shards.read(2, 3, &mut out);

    assert_eq!(out, [3, 4, 5]);
}

#[test]
fn a_window_may_cross_shards() {
    let maps = vec![map(&[1, 0, 2, 0]), map(&[]), map(&[3, 0]), map(&[4, 0, 5, 0])];
    let shards = Shards::open(maps, meta()).unwrap();

    let mut out = vec![9, 9, 9];
    shards.read(1, 3, &mut out);
    assert_eq!(out, [2, 3, 4]);

    shards.read(0, 5, &mut out);
    assert_eq!(out, [1, 2, 3, 4, 5]);

    shards.read(5, 0, &mut out);
    assert!(out.is_empty());
}

#[test]
fn tokens_are_little_endian() {
    let shards = Shards::open(vec![map(&[0x34, 0x12, 0xff, 0xff])], meta()).unwrap();

    let mut out = Vec::new();
    shards.read(0, 2, &mut out);

    assert_eq!(out, [0x1234, 0xffff]);
    assert_eq!(Writer::create(64, 0).push(&[0x1234, 0xffff], 0).bytes, [0x34, 0x12, 0xff, 0xff]);
}

#[test]
fn an_odd_last_byte_is_no_token() {
    let shards = Shards::open(vec![map(&[1, 0, 2]), map(&[3, 0])], meta()).unwrap();

    let mut out = Vec::new();
    shards.read(0, 2, &mut out);

    assert_eq!((shards.len(), out), (2, vec![1, 3]));
}

#[test]
fn a_directory_without_shards_does_not_open() {
    assert_eq!(Shards::open(Vec::new(), meta()).unwrap_err(), OpenError::NoShards);
}

#[test]
fn an_empty_shard_opens_empty() {
    let shards = written(&[]);

    assert!(shards.is_empty());
    assert_eq!(shards.len(), 0);
    assert_eq!(*shards.meta(), meta());
}

#[test]
fn a_full_shard_rotates_and_an_empty_one_is_removed() {
    let half = vec![7u16; SHARD_BYTES / 4];
    let mut writer = Writer::create(64, 0);

    assert_eq!(writer.push(&half, 1).next, None);
    assert_eq!(writer.push(&half, 1).next, Some("shard_0001.bin".to_string()));

    let finished = writer.finish();
    assert_eq!(finished.remove, Some("shard_0001.bin".to_string()));
    assert_eq!((finished.meta.tokens, finished.meta.docs), ((SHARD_BYTES / 2) as u64, 2));
}

#[test]
fn the_only_shard_stays_though_empty() {
    assert_eq!(Writer::create(64, 3).finish().remove, None);
}

#[test]
fn counts_that_do_not_fit_are_refused() {
    let mut writer = Writer::create(64, 0);

    assert!(writer.can_push(0, usize::MAX));
    writer.push(&[], usize::MAX);
    assert!(!writer.can_push(0, 1));
    assert!(!writer.can_push(usize::MAX, 0));
}

#[test]
fn shards_are_named_by_number() {
    assert_eq!(shard_path(0), "shard_0000.bin");
    assert_eq!(shard_path(3), "shard_0003.bin");
    assert_eq!(shard_path(12_345), "shard_12345.bin");
    assert_eq!(shard_path(usize::MAX), format!("shard_{:04}.bin", usize::MAX));
}

fn names(list: &[&str]) -> Vec<Vec<u8>> {
    list.iter().map(|name| name.as_bytes().to_vec()).collect()
}

#[test]
fn only_shards_are_listed_and_by_name() {
    let files = names(&["shard_0002.bin", "meta.json", "shard_0000.bin", ".bin", "x.bin", "bin"]);

    assert_eq!(order(&files), [2, 0, 4]);
}

#[test]
fn shards_are_read_in_the_order_they_were_written() {
    let written: Vec<String> = (0..250).map(shard_path).collect();
    let mut shuffled: Vec<Vec<u8>> =
        written.iter().map(|name| name.clone().into_bytes()).collect();
    shuffled.reverse();

    let read: Vec<Vec<u8>> = order(&shuffled).into_iter().map(|i| shuffled[i].clone()).collect();

    assert_eq!(read, written.into_iter().map(String::into_bytes).collect::<Vec<_>>());
}

#[test]
fn past_four_digits_names_stop_following_numbers() {
    let files = vec![shard_path(9_999).into_bytes(), shard_path(10_000).into_bytes()];

    assert_eq!(order(&files), [1, 0]);
}

#[test]
fn no_two_shards_share_a_name() {
    let mut names: Vec<String> = (0..20_000).map(shard_path).collect();
    names.sort();
    names.dedup();

    assert_eq!(names.len(), 20_000);
}

#[test]
fn every_token_is_there_in_any_order() {
    let numbers = [10_000usize, 9_999, 7];
    let dir = Dir {
        files: numbers
            .iter()
            .map(|n| (shard_path(*n), vec![*n as u8; 2 + 2 * (n % 3)]))
            .collect(),
    };

    let shards = dir.open(meta()).unwrap();

    assert_eq!(shards.len(), 2 + 1 + 2);
}

#[test]
fn maps_are_counted_before_they_are_opened() {
    assert!(Shards::can_open(&vec![map(&[1, 0, 2]), map(&[])]));
    assert!(Shards::can_open(&Vec::new()));
}

#[test]
fn a_name_may_end_where_another_goes_on() {
    assert_eq!(order(&names(&["a.bin.bin", "a.bin"])), [1, 0]);
}

// ── preparing ────────────────────────────────────────────────────────────────

/// One id per byte, and an end mark.
fn encoded(doc: &str) -> Encoded {
    let mut ids: Vec<u16> = doc.bytes().map(u16::from).collect();
    ids.push(0);
    Encoded::new(doc, Ok(ids)).unwrap()
}

fn prepared(docs: &[&str]) -> (Shards, Shards) {
    let (mut train, mut valid) = (Dir::new(), Dir::new());
    let mut preparer = Preparer::create(300, 0);
    for doc in docs {
        let doc = encoded(doc);
        assert!(preparer.can_push(&doc));
        let routed = preparer.push(&doc);
        let dir = match routed.split {
            Split::Train => &mut train,
            Split::Valid => &mut valid,
        };
        dir.append(&routed.append.bytes, routed.append.next);
    }
    let closing = preparer.finish();
    let prepared = closing.prepared();
    train.remove(closing.train.remove);
    valid.remove(closing.valid.remove);
    (train.open(prepared.train).unwrap(), valid.open(prepared.valid).unwrap())
}

#[test]
fn every_document_lands_in_exactly_one_split() {
    let (train, valid) = prepared(&["one", "two", "three"]);

    assert_eq!(train.meta().docs + valid.meta().docs, 3);
}

#[test]
fn the_first_document_is_held_out() {
    let (_, valid) = prepared(&["one", "two", "three"]);

    assert_eq!(valid.meta().docs, 1);
}

#[test]
fn the_shards_are_readable_afterwards() {
    let (train, _) = prepared(&["the quick brown fox", "jumps over"]);

    assert_eq!(train.len() as u64, train.meta().tokens);
}

#[test]
fn a_split_holds_its_documents_in_order() {
    let (train, valid) = prepared(&["one", "two", "three"]);

    let read = |shards: &Shards| {
        let mut out = Vec::new();
        shards.read(0, shards.len(), &mut out);
        out
    };

    let ids = |doc: &str| encoded(doc).ids;
    assert_eq!(read(&valid), ids("one"));
    assert_eq!(read(&train), [ids("two"), ids("three")].concat());
    assert_eq!(train.meta().bytes, 8);
}

#[test]
fn one_document_in_two_hundred_is_held_out() {
    let chunk: Vec<Encoded> = (0..401).map(|_| encoded("x")).collect();
    let mut preparer = Preparer::create(300, 0);

    assert!(preparer.can_push_chunk(&chunk));
    let routed = preparer.push_chunk(&chunk);

    let held: Vec<usize> = routed
        .iter()
        .enumerate()
        .filter(|(_, one)| one.split == Split::Valid)
        .map(|(i, _)| i)
        .collect();
    assert_eq!(held, [0, 200, 400]);
    assert_eq!(preparer.docs(), 401);
    let prepared = preparer.finish().prepared();
    assert_eq!((prepared.train.docs, prepared.valid.docs), (398, 3));
}

#[test]
fn a_chunk_that_cannot_be_counted_is_refused() {
    let huge = || Encoded { ids: Vec::new(), bytes: usize::MAX };
    let preparer = Preparer::create(300, 0);

    // The first goes to validation, the others to training.
    assert!(preparer.can_push_chunk(&vec![huge(), huge()]));
    assert!(!preparer.can_push_chunk(&vec![huge(), huge(), encoded("x")]));
    assert_eq!(preparer.docs(), 0);
}

#[test]
fn a_chunk_is_handed_out_when_it_fills() {
    let mut chunker = Chunker::new();

    for i in 1..CHUNK {
        assert_eq!(chunker.offer(Ok(format!("{i}"))), None);
    }
    let chunk = chunker.offer(Ok("last".to_string())).unwrap().unwrap();
    assert_eq!((chunk.len(), chunk[0].as_str(), chunk[CHUNK - 1].as_str()), (CHUNK, "1", "last"));

    assert_eq!(chunker.offer(Ok("rest".to_string())), None);
    assert_eq!(chunker.close(), Some(vec!["rest".to_string()]));
}

#[test]
fn a_bad_document_fails_its_whole_chunk() {
    let mut chunker = Chunker::new();

    assert_eq!(chunker.offer(Ok("good".to_string())), None);
    assert_eq!(
        chunker.offer(Err("torn".to_string())),
        Some(Err(Error::Corpus("torn".to_string())))
    );
    assert_eq!(chunker.close(), None);
}

#[test]
fn a_document_counts_its_utf8_bytes() {
    assert_eq!(Encoded::new("héé", Ok(vec![1, 2])), Ok(Encoded { ids: vec![1, 2], bytes: 5 }));
    assert_eq!(
        Encoded::new("x", Err("no vocabulary".to_string())),
        Err(Error::Tokenizer("no vocabulary".to_string()))
    );
}

#[test]
fn an_error_speaks_in_the_words_of_its_cause() {
    assert_eq!(Error::Corpus("a".to_string()).message(), "a");
    assert_eq!(Error::Tokenizer("b".to_string()).message(), "b");
    assert_eq!(Error::Io("c".to_string()).message(), "c");
}

// ── text ─────────────────────────────────────────────────────────────────────

#[test]
fn numbers_are_written_in_decimal() {
    for n in [0, 7, 10, 99, 100, 4096, usize::MAX] {
        assert_eq!(decimal(n), format!("{n}"));
        assert_eq!(padded_decimal(n, 4), format!("{n:04}"));
    }
}

#[test]
fn a_needle_is_found_anywhere_in_the_hay() {
    assert!(contains("tok_embed.weight", "embed"));
    assert!(contains("lm_head", "head"));
    assert!(contains("x", ""));
    assert!(contains("", ""));
    assert!(!contains("embe", "embed"));
    assert!(!contains("hea.d", "head"));
}
