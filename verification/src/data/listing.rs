//! Which files of a directory are shards, and in what order they are read.

use vstd::prelude::*;
use vstd::set_lib::*;
use vstd::utf8::*;

use crate::data::shard::shard_name;
use crate::text::{decimal_text, digit_char, zero_padded};

verus! {

/// A file name that ends in `.bin`, behind at least one character.
pub open spec fn is_shard(name: Seq<u8>) -> bool {
    let n = name.len();
    &&& n > 4
    &&& name[n - 4] == 0x2e
    &&& name[n - 3] == 0x62
    &&& name[n - 2] == 0x69
    &&& name[n - 1] == 0x6e
}

/// `a` and `b` agree in front of `k`, and at `k` either `a` ends or its byte is
/// the smaller.
pub open spec fn differ_first(a: Seq<u8>, b: Seq<u8>, k: int) -> bool {
    &&& 0 <= k <= a.len()
    &&& k < b.len()
    &&& forall|i: int| 0 <= i < k ==> a[i] == b[i]
    &&& k < a.len() ==> a[k] < b[k]
}

/// Whether `a` stands in front of `b` in byte order.
pub open spec fn precedes(a: Seq<u8>, b: Seq<u8>) -> bool {
    exists|k: int| differ_first(a, b, k)
}

/// `picked` lists the shards among `names` once each, in byte order of name.
pub open spec fn lists_shards(names: Seq<Seq<u8>>, picked: Seq<usize>) -> bool {
    &&& picked.no_duplicates()
    &&& forall|i: int|
        0 <= i < picked.len() ==> (#[trigger] picked[i]) < names.len() && is_shard(
            names[picked[i] as int],
        )
    &&& forall|f: usize| f < names.len() && is_shard(names[f as int]) ==> #[trigger] picked.contains(f)
    &&& forall|i: int, j: int|
        0 <= i < j < picked.len() ==> !precedes(
            names[#[trigger] picked[j] as int],
            names[#[trigger] picked[i] as int],
        )
}

/// The bytes of several names.
pub open spec fn bytes_of(names: Seq<Vec<u8>>) -> Seq<Seq<u8>> {
    Seq::new(names.len(), |i: int| names[i]@)
}

proof fn lemma_transitive(a: Seq<u8>, b: Seq<u8>, c: Seq<u8>)
    requires
        precedes(a, b),
        precedes(b, c),
    ensures
        precedes(a, c),
{
    let k = choose|k: int| differ_first(a, b, k);
    let l = choose|l: int| differ_first(b, c, l);
    let m = if k <= l {
        k
    } else {
        l
    };
    assert(differ_first(a, c, m));
}

fn has_shard_suffix(name: &Vec<u8>) -> (yes: bool)
    ensures
        yes == is_shard(name@),
{
    let n: usize = name.len();
    n > 4 && name[n - 4] == 0x2e && name[n - 3] == 0x62 && name[n - 2] == 0x69 && name[n - 1]
        == 0x6e
}

fn stands_before(a: &Vec<u8>, b: &Vec<u8>) -> (yes: bool)
    ensures
        yes == precedes(a@, b@),
{
    let mut k: usize = 0;
    while k < a.len() && k < b.len() && a[k] == b[k]
        invariant
            k <= a@.len(),
            k <= b@.len(),
            forall|i: int| 0 <= i < k ==> a@[i] == b@[i],
        decreases a@.len() - k,
    {
        k = k + 1;
    }
    let yes = k < b.len() && (k == a.len() || a[k] < b[k]);
    proof {
        if yes {
            assert(differ_first(a@, b@, k as int));
        } else if precedes(a@, b@) {
            let l = choose|l: int| differ_first(a@, b@, l);
            assert(l <= k);
            assert(l >= k);
        }
    }
    yes
}

/// The shards among the files of a directory, as positions in `names`, in the
/// order in which they are read.
pub fn order(names: &Vec<Vec<u8>>) -> (picked: Vec<usize>)
    ensures
        lists_shards(bytes_of(names@), picked@),
        picked@.no_duplicates(),
        forall|i: int| 0 <= i < picked@.len() ==> (#[trigger] picked@[i]) < names@.len(),
        forall|f: usize|
            f < names@.len() ==> (#[trigger] picked@.contains(f) <==> {
                let name = names@[f as int]@;
                name.len() > 4 && name.skip(name.len() - 4) == seq![0x2eu8, 0x62u8, 0x69u8, 0x6eu8]
            }),
{
    let ghost all = bytes_of(names@);
    let mut picked: Vec<usize> = Vec::new();
    let mut f: usize = 0;
    while f < names.len()
        invariant
            all == bytes_of(names@),
            f <= names@.len(),
            lists_shards(all.take(f as int), picked@),
        decreases names@.len() - f,
    {
        let ghost before = picked@;
        if has_shard_suffix(&names[f]) {
            let mut at: usize = 0;
            while at < picked.len() && !stands_before(&names[f], &names[picked[at]])
                invariant
                    all == bytes_of(names@),
                    f < names@.len(),
                    at <= picked@.len(),
                    picked@ == before,
                    forall|i: int| 0 <= i < picked@.len() ==> (#[trigger] picked@[i]) < f,
                    forall|i: int|
                        0 <= i < at ==> !precedes(
                            all[f as int],
                            all[#[trigger] picked@[i] as int],
                        ),
                decreases picked@.len() - at,
            {
                at = at + 1;
            }
            picked.insert(at, f);
            proof {
                lemma_insert(all, before, at as int, f);
            }
        } else {
            assert(forall|i: int|
                0 <= i < picked@.len() ==> all.take(f + 1)[(#[trigger] picked@[i]) as int]
                    == all.take(f as int)[picked@[i] as int]);
            assert forall|g: usize| g < f + 1 && is_shard(all.take(f + 1)[g as int]) implies
                #[trigger] picked@.contains(g) by {
                assert(all.take(f as int)[g as int] == all[g as int]);
            }
        }
        f = f + 1;
    }
    assert(all.take(f as int) =~= all);
    proof {
        assert forall|f: usize| f < names@.len() implies (#[trigger] picked@.contains(f) <==> {
            let name = names@[f as int]@;
            name.len() > 4 && name.skip(name.len() - 4) == seq![0x2eu8, 0x62u8, 0x69u8, 0x6eu8]
        }) by {
            a_shard_ends_in_bin(all[f as int]);
            if picked@.contains(f) {
                let i = choose|i: int| 0 <= i < picked@.len() && picked@[i] == f;
                assert(is_shard(all[picked@[i] as int]));
            }
        }
    }
    picked
}

/// A shard is a file whose name ends in `.bin`, behind at least one character.
pub proof fn a_shard_ends_in_bin(name: Seq<u8>)
    ensures
        is_shard(name) <==> name.len() > 4 && name.skip(name.len() - 4)
            == seq![0x2eu8, 0x62u8, 0x69u8, 0x6eu8],
{
    if name.len() > 4 {
        let end = name.skip(name.len() - 4);
        let bin = seq![0x2eu8, 0x62u8, 0x69u8, 0x6eu8];
        assert(end[0] == name[name.len() - 4] && end[1] == name[name.len() - 3]);
        assert(end[2] == name[name.len() - 2] && end[3] == name[name.len() - 1]);
        if is_shard(name) {
            assert(end =~= bin);
        }
        if end == bin {
            assert(bin[0] == 0x2e && bin[1] == 0x62 && bin[2] == 0x69 && bin[3] == 0x6e);
        }
    }
}

/// Files are read in byte order of their names: of two names that differ, the one
/// read first agrees with the other up to some place, and there it ends or holds
/// the smaller byte.
pub proof fn names_are_read_in_byte_order(
    names: Seq<Seq<u8>>,
    picked: Seq<usize>,
    i: int,
    j: int,
) -> (place: int)
    requires
        lists_shards(names, picked),
        0 <= i < j < picked.len(),
        names[picked[i] as int] != names[picked[j] as int],
    ensures
        ({
            let (a, b) = (names[picked[i] as int], names[picked[j] as int]);
            &&& 0 <= place <= a.len()
            &&& place < b.len()
            &&& a.take(place) == b.take(place)
            &&& place == a.len() || a[place] < b[place]
        }),
{
    let (a, b) = (names[picked[i] as int], names[picked[j] as int]);
    let place = first_difference(a, b, 0);
    assert(a.take(place) =~= b.take(place));
    if place == b.len() || (place < a.len() && b[place] < a[place]) {
        assert(differ_first(b, a, place));
        assert(precedes(b, a));
        assert(!precedes(names[picked[j] as int], names[picked[i] as int]));
    }
    place
}

/// The first place from `k` on at which two different sequences differ.
proof fn first_difference(a: Seq<u8>, b: Seq<u8>, k: int) -> (place: int)
    requires
        a != b,
        0 <= k <= a.len(),
        k <= b.len(),
        forall|m: int| 0 <= m < k ==> a[m] == b[m],
    ensures
        k <= place <= a.len(),
        place <= b.len(),
        forall|m: int| 0 <= m < place ==> a[m] == b[m],
        place < a.len() || place < b.len(),
        place < a.len() && place < b.len() ==> a[place] != b[place],
    decreases a.len() - k,
{
    if k == a.len() || k == b.len() {
        if k == a.len() && k == b.len() {
            assert(a =~= b);
        }
        k
    } else if a[k] != b[k] {
        k
    } else {
        first_difference(a, b, k + 1)
    }
}

/// Inserting the next shard in front of the first name behind it keeps the list.
proof fn lemma_insert(all: Seq<Seq<u8>>, before: Seq<usize>, at: int, f: usize)
    requires
        f < all.len(),
        is_shard(all[f as int]),
        lists_shards(all.take(f as int), before),
        0 <= at <= before.len(),
        forall|i: int|
            0 <= i < at ==> !precedes(all[f as int], all[#[trigger] before[i] as int]),
        at < before.len() ==> precedes(all[f as int], all[before[at] as int]),
    ensures
        lists_shards(all.take(f + 1), before.insert(at, f)),
{
    let names = all.take(f + 1);
    let after = before.insert(at, f);
    assert forall|i: int| 0 <= i < after.len() implies (#[trigger] after[i]) < names.len()
        && is_shard(names[after[i] as int]) by {
        if i < at {
            assert(before[i] < f && is_shard(all.take(f as int)[before[i] as int]));
        } else if i > at {
            assert(before[i - 1] < f && is_shard(all.take(f as int)[before[i - 1] as int]));
        }
    }
    assert(after.no_duplicates()) by {
        assert forall|i: int, j: int|
            0 <= i < after.len() && 0 <= j < after.len() && i != j implies after[i]
            != after[j] by {
            let p = if i < at {
                i
            } else {
                i - 1
            };
            let q = if j < at {
                j
            } else {
                j - 1
            };
            if i != at {
                assert(before[p] < f);
            }
            if j != at {
                assert(before[q] < f);
            }
        }
    }
    assert forall|g: usize| g < names.len() && is_shard(names[g as int]) implies
        #[trigger] after.contains(g) by {
        if g == f {
            assert(after[at] == g);
        } else {
            assert(all.take(f as int)[g as int] == all[g as int]);
            assert(before.contains(g));
            let i = choose|i: int| 0 <= i < before.len() && before[i] == g;
            if i < at {
                assert(after[i] == g);
            } else {
                assert(after[i + 1] == g);
            }
        }
    }
    assert forall|i: int, j: int| 0 <= i < j < after.len() implies !precedes(
        names[#[trigger] after[j] as int],
        names[#[trigger] after[i] as int],
    ) by {
        let p = if i < at {
            i
        } else {
            i - 1
        };
        let q = if j < at {
            j
        } else {
            j - 1
        };
        if i != at && j != at {
            assert(before[p] < f && before[q] < f);
            assert(!precedes(
                all.take(f as int)[before[q] as int],
                all.take(f as int)[before[p] as int],
            ));
        } else if j == at {
            assert(before[i] < f);
        } else {
            assert(before[q] < f && before[at] < f);
            if precedes(all[before[q] as int], all[f as int]) {
                lemma_transitive(all[before[q] as int], all[f as int], all[before[at] as int]);
                if q != at {
                    assert(!precedes(
                        all.take(f as int)[before[q] as int],
                        all.take(f as int)[before[at] as int],
                    ));
                } else {
                    let k = choose|k: int|
                        differ_first(all[before[at] as int], all[before[at] as int], k);
                    assert(false);
                }
            }
        }
    }
}

// ── the order of a writer's own shards ───────────────────────────────────────

/// Decimal digit `place` of `n`, counted from the left of four.
#[verifier::opaque]
spec fn digit_at(n: nat, place: int) -> nat {
    if place == 0 {
        n / 1000
    } else if place == 1 {
        n / 100 % 10
    } else if place == 2 {
        n / 10 % 10
    } else {
        n % 10
    }
}

/// Four digits in front of `10_000`.
proof fn lemma_four_digits(n: nat)
    requires
        n < 10_000,
    ensures
        zero_padded(decimal_text(n), 4) == Seq::new(4, |i: int| digit_char(digit_at(n, i))),
{
    reveal(digit_at);
    reveal_with_fuel(decimal_text, 4);
    assert(digit_char(0) == '0');
    assert(n / 10 / 10 == n / 100);
    assert(n / 10 / 10 / 10 == n / 1000);
    assert(zero_padded(decimal_text(n), 4) =~= Seq::new(4, |i: int| digit_char(digit_at(n, i))));
}

/// A shard name, byte by byte.
proof fn lemma_name_bytes(n: nat)
    requires
        n < 10_000,
    ensures
        ({
            let bytes = encode_utf8(shard_name(n));
            &&& bytes.len() == 14
            &&& forall|i: int| 0 <= i < 6 ==> bytes[i] == #[trigger] "shard_"@[i] as u8
            &&& forall|i: int|
                0 <= i < 4 ==> #[trigger] bytes[6 + i] == (48 + digit_at(n, i)) as u8
            &&& is_shard(bytes)
        }),
{
    reveal_strlit("shard_");
    reveal_strlit(".bin");
    lemma_four_digits(n);
    let name = shard_name(n);
    lemma_digits_sum(n);
    assert(name.len() == 14);
    assert forall|i: int| 0 <= i < 4 implies #[trigger] name[6 + i] == digit_char(
        digit_at(n, i),
    ) by {}
    assert forall|i: int| 0 <= i < name.len() implies '\0' <= #[trigger] name[i] <= '\u{7f}' by {
        if 6 <= i < 10 {
            assert(name[6 + (i - 6)] == digit_char(digit_at(n, i - 6)));
        }
    }
    assert(is_ascii_chars(name));
    is_ascii_chars_encode_utf8(name);
    let bytes = encode_utf8(name);
    assert forall|i: int| 0 <= i < 4 implies #[trigger] bytes[6 + i] == (48 + digit_at(
        n,
        i,
    )) as u8 by {
        assert(name[6 + i] as u8 == bytes[6 + i]);
    }
    assert(name[10] == '.' && name[11] == 'b' && name[12] == 'i' && name[13] == 'n');
}

/// A number below 10 000 is the sum of its four digits at their places.
#[verifier::spinoff_prover]
proof fn lemma_digits_sum(n: nat)
    requires
        n < 10_000,
    ensures
        n == 1000 * digit_at(n, 0) + 100 * digit_at(n, 1) + 10 * digit_at(n, 2) + digit_at(n, 3),
        forall|i: int| 0 <= i < 4 ==> 0 <= #[trigger] digit_at(n, i) < 10,
{
    reveal(digit_at);
    let (tens, hundreds, thousands) = (n / 10, n / 100, n / 1000);
    assert(tens / 10 == hundreds);
    assert(hundreds / 10 == thousands);
    assert(n == 10 * tens + n % 10);
    assert(tens == 10 * hundreds + tens % 10);
    assert(hundreds == 10 * thousands + hundreds % 10);
    assert(digit_at(n, 0) == thousands && digit_at(n, 1) == hundreds % 10);
    assert(digit_at(n, 2) == tens % 10 && digit_at(n, 3) == n % 10);
}

/// The first place at which two rising numbers differ, and the digits there.
proof fn lemma_first_place(a: nat, b: nat) -> (d: int)
    requires
        a < b < 10_000,
    ensures
        0 <= d < 4,
        digit_at(a, d) < digit_at(b, d) < 10,
        forall|i: int| 0 <= i < d ==> #[trigger] digit_at(a, i) == digit_at(b, i),
{
    lemma_digits_sum(a);
    lemma_digits_sum(b);
    if digit_at(a, 0) != digit_at(b, 0) {
        0
    } else if digit_at(a, 1) != digit_at(b, 1) {
        1
    } else if digit_at(a, 2) != digit_at(b, 2) {
        2
    } else {
        3
    }
}

/// The names of the first 10 000 shards stand in the order of their numbers.
pub proof fn names_follow_numbers(a: nat, b: nat)
    requires
        a < b < 10_000,
    ensures
        precedes(encode_utf8(shard_name(a)), encode_utf8(shard_name(b))),
{
    lemma_name_bytes(a);
    lemma_name_bytes(b);
    let front = encode_utf8(shard_name(a));
    let back = encode_utf8(shard_name(b));
    let d = lemma_first_place(a, b);
    assert forall|i: int| 0 <= i < 6 + d implies front[i] == back[i] by {
        if i < 6 {
            assert(front[i] == "shard_"@[i] as u8);
        } else {
            assert(digit_at(a, i - 6) == digit_at(b, i - 6));
            assert(front[6 + (i - 6)] == back[6 + (i - 6)]);
        }
    }
    assert(front[6 + d] == (48 + digit_at(a, d)) as u8);
    assert(back[6 + d] == (48 + digit_at(b, d)) as u8);
    assert(differ_first(front, back, 6 + d));
}

/// The number that decimal text stands for.
spec fn value(text: Seq<char>) -> int
    decreases text.len(),
{
    if text.len() == 0 {
        0
    } else {
        10 * value(text.drop_last()) + (text.last() as int - 48)
    }
}

proof fn lemma_value_of_decimal(n: nat)
    ensures
        value(decimal_text(n)) == n,
    decreases n,
{
    reveal_with_fuel(value, 2);
    if n >= 10 {
        lemma_value_of_decimal(n / 10);
        assert(decimal_text(n).drop_last() =~= decimal_text(n / 10));
    } else {
        assert(decimal_text(n).drop_last() =~= Seq::empty());
    }
}

/// Zeros in front change no number.
proof fn lemma_value_of_padded(zeros: Seq<char>, text: Seq<char>)
    requires
        forall|i: int| 0 <= i < zeros.len() ==> zeros[i] == '0',
    ensures
        value(zeros + text) == value(text),
    decreases zeros.len() + text.len(),
{
    if text.len() > 0 {
        lemma_value_of_padded(zeros, text.drop_last());
        assert((zeros + text).drop_last() =~= zeros + text.drop_last());
    } else if zeros.len() > 0 {
        lemma_value_of_padded(zeros.drop_last(), text);
        assert((zeros + text).drop_last() =~= zeros.drop_last() + text);
    } else {
        assert(zeros + text =~= text);
    }
}

/// No two shards share a name, however many there are.
pub proof fn names_differ(i: nat, j: nat)
    requires
        i != j,
    ensures
        shard_name(i) != shard_name(j),
{
    if shard_name(i) == shard_name(j) {
        lemma_number_in_name(i);
        lemma_number_in_name(j);
    }
}

/// The number of a shard can be read off its name.
proof fn lemma_number_in_name(n: nat)
    ensures
        value(shard_name(n).subrange(6, shard_name(n).len() - 4)) == n,
{
    reveal_strlit("shard_");
    reveal_strlit(".bin");
    let text = decimal_text(n);
    let padded = zero_padded(text, 4);
    assert(shard_name(n).subrange(6, shard_name(n).len() - 4) =~= padded);
    lemma_value_of_decimal(n);
    if text.len() < 4 {
        lemma_value_of_padded(Seq::new((4 - text.len()) as nat, |i: int| '0'), text);
    }
}

/// Every name of a shard is listed as one.
proof fn lemma_name_is_shard(n: nat)
    ensures
        is_shard(encode_utf8(shard_name(n))),
{
    reveal_strlit("shard_");
    reveal_strlit(".bin");
    let name = shard_name(n);
    lemma_decimal_ascii(n);
    assert(is_ascii_chars(name));
    is_ascii_chars_encode_utf8(name);
}

proof fn lemma_decimal_ascii(n: nat)
    ensures
        is_ascii_chars(decimal_text(n)),
    decreases n,
{
    if n >= 10 {
        lemma_decimal_ascii(n / 10);
    }
}

/// However many shards there are and however they are met, every one of them is
/// picked once.
pub proof fn every_shard_is_picked_once(
    names: Seq<Seq<u8>>,
    number: Seq<nat>,
    picked: Seq<usize>,
)
    requires
        names.len() == number.len() <= usize::MAX,
        forall|f: int| 0 <= f < names.len() ==> #[trigger] names[f] == encode_utf8(shard_name(number[f])),
        lists_shards(names, picked),
    ensures
        picked.len() == names.len(),
        picked.no_duplicates(),
        forall|i: int| 0 <= i < picked.len() ==> (#[trigger] picked[i]) < names.len(),
{
    assert forall|f: usize| f < names.len() implies #[trigger] picked.contains(f) by {
        lemma_name_is_shard(number[f as int]);
        assert(is_shard(names[f as int]));
    }
    lemma_picks_all(picked, names.len());
}

/// A sequence that picks every number below `n` once has `n` entries.
proof fn lemma_picks_all(picked: Seq<usize>, n: nat)
    requires
        n <= usize::MAX,
        picked.no_duplicates(),
        forall|i: int| 0 <= i < picked.len() ==> (#[trigger] picked[i]) < n,
        forall|f: usize| f < n ==> #[trigger] picked.contains(f),
    ensures
        picked.len() == n,
{
    let wide = Seq::new(picked.len(), |i: int| picked[i] as int);
    assert(wide.no_duplicates());
    wide.unique_seq_to_set();
    assert forall|x: int| wide.to_set().contains(x) <==> set_int_range(0, n as int).contains(
        x,
    ) by {
        if 0 <= x < n {
            assert(picked.contains(x as usize));
            let i = choose|i: int| 0 <= i < picked.len() && picked[i] == x as usize;
            assert(wide[i] == x);
        }
        if wide.contains(x) {
            let i = choose|i: int| 0 <= i < wide.len() && wide[i] == x;
            assert(picked[i] < n);
        }
    }
    assert(wide.to_set() =~= set_int_range(0, n as int));
    lemma_int_range(0, n as int);
}

/// Rising numbers below their own count are the numbers from zero on.
proof fn lemma_rising_is_identity(q: Seq<int>, a: int)
    requires
        forall|i: int| 0 <= i < q.len() ==> 0 <= #[trigger] q[i] < q.len(),
        forall|i: int, j: int| 0 <= i < j < q.len() ==> #[trigger] q[i] < #[trigger] q[j],
        0 <= a < q.len(),
    ensures
        q[a] == a,
{
    lemma_rising_low(q, a);
    lemma_rising_high(q, a);
}

proof fn lemma_rising_low(q: Seq<int>, a: int)
    requires
        forall|i: int| 0 <= i < q.len() ==> 0 <= #[trigger] q[i] < q.len(),
        forall|i: int, j: int| 0 <= i < j < q.len() ==> #[trigger] q[i] < #[trigger] q[j],
        0 <= a < q.len(),
    ensures
        q[a] >= a,
    decreases a,
{
    if a > 0 {
        lemma_rising_low(q, a - 1);
    }
}

proof fn lemma_rising_high(q: Seq<int>, a: int)
    requires
        forall|i: int| 0 <= i < q.len() ==> 0 <= #[trigger] q[i] < q.len(),
        forall|i: int, j: int| 0 <= i < j < q.len() ==> #[trigger] q[i] < #[trigger] q[j],
        0 <= a < q.len(),
    ensures
        q[a] <= a,
    decreases q.len() - a,
{
    if a + 1 < q.len() {
        lemma_rising_high(q, a + 1);
    }
}

/// A directory that holds up to 10 000 shards of one writer, met in any order,
/// is read in the order in which it was written: `number[f]` is the number of
/// the shard that file `f` is, and the `a`-th file picked is shard `a`.
pub proof fn shards_are_read_as_written(
    names: Seq<Seq<u8>>,
    number: Seq<nat>,
    picked: Seq<usize>,
)
    requires
        names.len() == number.len() <= 10_000,
        number.no_duplicates(),
        forall|f: int| 0 <= f < number.len() ==> #[trigger] number[f] < number.len(),
        forall|f: int| 0 <= f < names.len() ==> #[trigger] names[f] == encode_utf8(shard_name(number[f])),
        lists_shards(names, picked),
    ensures
        picked.len() == names.len(),
        forall|a: int| 0 <= a < picked.len() ==> number[#[trigger] picked[a] as int] == a,
{
    assert forall|f: usize| f < names.len() implies #[trigger] picked.contains(f) by {
        assert(number[f as int] < 10_000);
        lemma_name_bytes(number[f as int]);
        assert(is_shard(names[f as int]));
    }
    lemma_picks_all(picked, names.len());
    let q = Seq::new(picked.len(), |a: int| number[picked[a] as int] as int);
    assert forall|i: int| 0 <= i < q.len() implies 0 <= #[trigger] q[i] < q.len() by {
        assert(picked[i] < names.len());
    }
    assert forall|i: int, j: int| 0 <= i < j < q.len() implies #[trigger] q[i] < #[trigger] q[j] by {
        assert(picked[i] < names.len() && picked[j] < names.len());
        assert(picked[i] != picked[j]);
        assert(q[i] != q[j]);
        if q[j] < q[i] {
            assert(q[i] < q.len());
            names_follow_numbers(q[j] as nat, q[i] as nat);
            assert(!precedes(names[picked[j] as int], names[picked[i] as int]));
        }
    }
    assert forall|a: int| 0 <= a < picked.len() implies number[#[trigger] picked[a] as int]
        == a by {
        lemma_rising_is_identity(q, a);
    }
}

} // verus!
