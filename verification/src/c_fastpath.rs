//! Tight loops over words and bytes: bitmaps, sorting, checksums, addresses.
use crate::bits;
use vstd::prelude::*;
use vstd::std_specs::bits::*;
use vstd::string::StringSliceAdditionalSpecFns;

verus! {

/// How many bits of `words` are clear.
pub open spec fn clear_bits(words: Seq<u64>) -> nat
    decreases words.len(),
{
    if words.len() == 0 {
        0
    } else {
        (clear_bits(words.drop_last()) + (64 - bits::ones64(words.last(), 64))) as nat
    }
}

pub fn bitmap_fill(words: &mut [u64], value: u64)
    ensures
        final(words)@ == Seq::new(old(words)@.len(), |i: int| value),
{
    let count: usize = words.len();
    let mut index: usize = 0;
    while index < count
        invariant
            count == words@.len(),
            count == old(words)@.len(),
            index <= count,
            forall|i: int| 0 <= i < index ==> words@[i] == value,
        decreases count - index,
    {
        words[index] = value;
        index += 1;
    }
    assert(words@ =~= Seq::new(old(words)@.len(), |i: int| value));
}

/// Counts the clear bits of a bitmap, whose length in bits must fit in `usize`.
pub fn bitmap_count_clear(words: &[u64]) -> (count: usize)
    requires
        words@.len() * 64 <= usize::MAX,
    ensures
        count == clear_bits(words@),
        count <= words@.len() * 64,
{
    let mut count: usize = 0;
    let mut index: usize = 0;
    while index < words.len()
        invariant
            index <= words@.len(),
            words@.len() * 64 <= usize::MAX,
            count == clear_bits(words@.take(index as int)),
            count <= index * 64,
        decreases words@.len() - index,
    {
        let set: u32 = bits::count_ones(words[index]);
        count = count + (64 - set) as usize;
        index += 1;
        assert(words@.take(index as int).drop_last() =~= words@.take(index - 1));
    }
    assert(words@.take(index as int) =~= words@);
    count
}

/// The position of the first clear bit from word `start_word` on, as a word and
/// a bit in it.
pub fn bitmap_find_clear(words: &[u64], start_word: usize) -> (found: Option<(usize, usize)>)
    ensures
        match found {
            Some((word, bit)) => start_word <= word < words@.len() && bit < 64 && !bits::bit64(
                words@[word as int],
                bit as int,
            ) && (forall|i: int| start_word <= i < word ==> words@[i] == u64::MAX) && (forall|j: int|
                0 <= j < bit ==> #[trigger] bits::bit64(words@[word as int], j)),
            None => forall|i: int| start_word <= i < words@.len() ==> words@[i] == u64::MAX,
        },
{
    let mut word: usize = start_word;
    while word < words.len()
        invariant
            start_word <= word,
            forall|i: int| start_word <= i < word ==> i < words@.len() ==> words@[i] == u64::MAX,
        decreases words@.len() - word,
    {
        if words[word] != u64::MAX {
            let value: u64 = words[word];
            let bit: usize = value.trailing_ones() as usize;
            proof {
                axiom_u64_trailing_ones(value);
                assert forall|j: int| 0 <= j < bit implies #[trigger] bits::bit64(value, j) by {
                    let k = j as u64;
                    assert((value >> k) & 1u64 == 1u64);
                }
            }
            return Some((word, bit));
        }
        word += 1;
    }
    None
}

/// Whether `values` ascends strictly.
pub open spec fn strictly_ascending(values: Seq<u64>) -> bool {
    forall|i: int, j: int| 0 <= i < j < values.len() ==> values[i] < values[j]
}

/// Sorts the distinct values to the front, ascending, and returns how many they
/// are. What stands behind them is unspecified.
pub fn sort_unique_u64(values: &mut [u64]) -> (unique: usize)
    ensures
        final(values)@.len() == old(values)@.len(),
        unique <= final(values)@.len(),
        strictly_ascending(final(values)@.take(unique as int)),
        forall|v: u64| final(values)@.take(unique as int).contains(v) <==> old(values)@.contains(v),
{
    let count: usize = values.len();
    let mut unique: usize = 0;
    let mut next: usize = 0;
    while next < count
        invariant
            count == values@.len(),
            count == old(values)@.len(),
            unique <= next <= count,
            strictly_ascending(values@.take(unique as int)),
            forall|i: int| next <= i < count ==> values@[i] == old(values)@[i],
            forall|v: u64|
                values@.take(unique as int).contains(v) <==> old(values)@.take(
                    next as int,
                ).contains(v),
        decreases count - next,
    {
        let value: u64 = values[next];
        let ghost before = values@;
        let ghost kept = before.take(unique as int);
        let mut at: usize = 0;
        while at < unique && values[at] < value
            invariant
                unique <= next < count,
                values@ == before,
                count == values@.len(),
                at <= unique,
                forall|i: int| 0 <= i < at ==> before[i] < value,
            decreases unique - at,
        {
            at += 1;
        }
        if at < unique && values[at] == value {
            proof {
                assert forall|v: u64| kept.contains(v) <==> old(values)@.take(next + 1).contains(v) by {
                    lemma_take_contains(old(values)@, next as int, v);
                    assert(kept[at as int] == value);
                }
            }
            next += 1;
            continue ;
        }
        let mut slot: usize = unique;
        while slot > at
            invariant
                at <= slot <= unique,
                unique <= next < count,
                count == values@.len(),
                count == before.len(),
                forall|i: int| 0 <= i < slot ==> values@[i] == before[i],
                forall|i: int| slot < i <= unique ==> values@[i] == before[i - 1],
                forall|i: int| next < i < count ==> values@[i] == before[i],
            decreases slot,
        {
            let moved: u64 = values[slot - 1];
            values[slot] = moved;
            slot -= 1;
        }
        values[at] = value;
        unique += 1;
        proof {
            let inserted = values@.take(unique as int);
            assert(kept.len() + 1 == inserted.len());
            assert forall|i: int, j: int| 0 <= i < j < inserted.len() implies inserted[i] < inserted[j] by {
                if i < at {
                    assert(inserted[i] == kept[i]);
                } else if i > at {
                    assert(inserted[i] == kept[i - 1]);
                }
                if j < at {
                    assert(inserted[j] == kept[j]);
                } else if j > at {
                    assert(inserted[j] == kept[j - 1]);
                }
                if i < at && j == at {
                    assert(before[i] < value);
                }
                if i == at {
                    assert(kept[at as int] <= kept[j - 1]);
                    assert(before[at as int] > value);
                }
            }
            assert forall|v: u64| inserted.contains(v) <==> old(values)@.take(next + 1).contains(v) by {
                lemma_take_contains(old(values)@, next as int, v);
                if kept.contains(v) {
                    let k = kept.index_of(v);
                    if k < at {
                        assert(inserted[k] == v);
                    } else {
                        assert(inserted[k + 1] == v);
                    }
                }
                assert(inserted[at as int] == value);
                if inserted.contains(v) {
                    let k = inserted.index_of(v);
                    if k < at {
                        assert(kept[k] == v);
                    } else if k > at {
                        assert(kept[k - 1] == v);
                    }
                }
            }
        }
        next += 1;
    }
    assert(old(values)@.take(next as int) =~= old(values)@);
    unique
}

proof fn lemma_take_contains(s: Seq<u64>, n: int, v: u64)
    requires
        0 <= n < s.len(),
    ensures
        s.take(n + 1).contains(v) <==> s.take(n).contains(v) || s[n] == v,
{
    if s.take(n).contains(v) {
        let k = s.take(n).index_of(v);
        assert(s.take(n + 1)[k] == v);
    }
    assert(s.take(n + 1)[n] == s[n]);
    if s.take(n + 1).contains(v) {
        let k = s.take(n + 1).index_of(v);
        if k < n {
            assert(s.take(n)[k] == v);
        }
    }
}

/// The sum of the big-endian 16-bit words of `data`; an odd last byte is the upper
/// half of its word.
pub open spec fn word_sum(data: Seq<u8>) -> nat
    decreases data.len(),
{
    if data.len() == 0 {
        0
    } else if data.len() == 1 {
        data[0] as nat * 256
    } else {
        data[0] as nat * 256 + data[1] as nat + word_sum(data.skip(2))
    }
}

/// A sum folded to 16 bits by adding its carries back in.
pub open spec fn folded(sum: nat) -> nat
    decreases sum,
{
    if sum < 0x1_0000 {
        sum
    } else {
        folded(sum % 0x1_0000 + sum / 0x1_0000)
    }
}

/// The Internet checksum: the complement of the folded word sum.
pub fn internet_checksum(data: &[u8]) -> (checksum: u16)
    ensures
        checksum == 0xffff - folded(word_sum(data@)),
{
    let mut sum: u128 = 0;
    let mut index: usize = 0;
    let length: usize = data.len();
    assert(data@.skip(0) =~= data@);
    while length - index >= 2
        invariant
            index <= length == data@.len(),
            sum + word_sum(data@.skip(index as int)) == word_sum(data@),
            sum <= index * 0xffff,
        decreases data@.len() - index,
    {
        let ghost rest = data@.skip(index as int);
        assert(rest.skip(2) =~= data@.skip(index + 2));
        sum = sum + data[index] as u128 * 256 + data[index + 1] as u128;
        index += 2;
    }
    if index < length {
        sum = sum + data[index] as u128 * 256;
    }
    let ghost total = sum as nat;
    while sum >= 0x1_0000
        invariant
            folded(sum as nat) == folded(total),
        decreases sum,
    {
        sum = sum % 0x1_0000 + sum / 0x1_0000;
    }
    (0xffff - sum) as u16
}

/// Folding leaves the rest that a sum has when it is divided by the largest word, and folds
/// nothing but zero to zero.
proof fn lemma_folded(sum: nat)
    ensures
        folded(sum) <= 0xffff,
        folded(sum) % 0xffff == sum % 0xffff,
        sum > 0 ==> folded(sum) > 0,
    decreases sum,
{
    if sum >= 0x1_0000 {
        let less = sum % 0x1_0000 + sum / 0x1_0000;
        lemma_folded(less);
        assert(sum == less + (sum / 0x1_0000) * 0xffff);
        vstd::arithmetic::div_mod::lemma_mod_multiples_vanish(
            (sum / 0x1_0000) as int,
            less as int,
            0xffff,
        );
    }
}

proof fn lemma_word_sum(data: Seq<u8>, high: u8, low: u8)
    requires
        data.len() % 2 == 0,
    ensures
        word_sum(data + seq![high, low]) == word_sum(data) + high * 256 + low,
    decreases data.len(),
{
    let whole = data + seq![high, low];
    if data.len() == 0 {
        assert(whole =~= seq![high, low]);
        assert(whole.skip(2) =~= Seq::<u8>::empty());
        assert(word_sum(whole.skip(2)) == 0);
    } else {
        lemma_word_sum(data.skip(2), high, low);
        assert(whole.skip(2) =~= data.skip(2) + seq![high, low]);
    }
}

proof fn lemma_complement(sum: nat, fold: nat, total: nat, end: nat)
    requires
        fold % 0xffff == sum % 0xffff,
        fold <= 0xffff,
        sum == 0 ==> fold == 0,
        total == sum + 0xffff - fold,
        end % 0xffff == total % 0xffff,
        end <= 0xffff,
        total > 0 ==> end > 0,
    ensures
        end == 0xffff,
{
    let times = sum as int / 0xffff - fold as int / 0xffff + 1;
    assert(total == times * 0xffff);
    vstd::arithmetic::div_mod::lemma_mod_multiples_basic(times, 0xffff);
}

/// Data of whole words that its checksum follows, the upper byte first, has the checksum zero.
#[verifier::spinoff_prover]
pub proof fn law_checked_data_sums_to_zero(data: Seq<u8>, high: u8, low: u8)
    requires
        data.len() % 2 == 0,
        high * 256 + low == 0xffff - folded(word_sum(data)),
    ensures
        0xffff - folded(word_sum(data + seq![high, low])) == 0,
{
    lemma_word_sum(data, high, low);
    let sum = word_sum(data);
    let total = word_sum(data + seq![high, low]);
    lemma_folded(sum);
    lemma_folded(total);
    assert(sum == 0 ==> folded(sum) == 0);
    lemma_complement(sum, folded(sum), total, folded(total));
}

/// How many decimal digits `text` starts with.
pub open spec fn digit_run(text: Seq<u8>) -> nat
    decreases text.len(),
{
    if text.len() > 0 && 48 <= text[0] <= 57 {
        1 + digit_run(text.skip(1))
    } else {
        0
    }
}

/// The number that a sequence of decimal digits writes.
pub open spec fn digits_value(digits: Seq<u8>) -> int
    decreases digits.len(),
{
    if digits.len() == 0 {
        0
    } else {
        digits_value(digits.drop_last()) * 10 + (digits.last() - 48)
    }
}

/// The octets that `text` writes in decimal, of one to three digits and at most
/// 255 each, with a dot between two of them.
pub open spec fn octets(text: Seq<u8>) -> Option<Seq<u8>>
    decreases text.len(),
{
    let run = digit_run(text);
    let value = digits_value(text.take(run as int));
    if !(1 <= run <= 3) || value > 255 || run > text.len() {
        None
    } else if run == text.len() {
        Some(seq![value as u8])
    } else if text[run as int] != 46 {
        None
    } else {
        match octets(text.skip(run as int + 1)) {
            Some(rest) => Some(seq![value as u8] + rest),
            None => None,
        }
    }
}

/// The IPv4 address that `text` writes in dotted decimal.
pub open spec fn ipv4_address(text: Seq<u8>) -> Option<Seq<u8>> {
    match octets(text) {
        Some(parts) => if parts.len() == 4 {
            Some(parts)
        } else {
            None
        },
        None => None,
    }
}

proof fn lemma_digit_run(text: Seq<u8>)
    ensures
        digit_run(text) <= text.len(),
        forall|i: int| 0 <= i < digit_run(text) ==> 48 <= #[trigger] text[i] <= 57,
        digit_run(text) < text.len() ==> !(48 <= text[digit_run(text) as int] <= 57),
    decreases text.len(),
{
    if text.len() > 0 && 48 <= text[0] <= 57 {
        lemma_digit_run(text.skip(1));
        assert forall|i: int| 0 <= i < digit_run(text) implies 48 <= #[trigger] text[i] <= 57 by {
            if i > 0 {
                assert(text.skip(1)[i - 1] == text[i]);
            }
        }
        assert(digit_run(text) < text.len() ==> text[digit_run(text) as int] == text.skip(1)[digit_run(
            text.skip(1),
        ) as int]);
    }
}

/// The digits at `start` and their number, saturated above 255, with the position
/// behind them.
fn scan_octet(text: &[u8], start: usize) -> (scanned: (u16, usize))
    requires
        start <= text@.len(),
    ensures
        scanned.1 == start + digit_run(text@.skip(start as int)),
        scanned.1 <= text@.len(),
        scanned.1 - start <= 3 ==> scanned.0 == digits_value(
            text@.skip(start as int).take(scanned.1 - start),
        ),
{
    let mut end: usize = start;
    let mut value: u16 = 0;
    let ghost rest = text@.skip(start as int);
    proof {
        lemma_digit_run(rest);
    }
    while end < text.len() && text[end] >= 48 && text[end] <= 57
        invariant
            rest == text@.skip(start as int),
            start <= end <= text@.len(),
            end - start <= digit_run(rest),
            digit_run(rest) <= rest.len(),
            forall|i: int| 0 <= i < digit_run(rest) ==> 48 <= #[trigger] rest[i] <= 57,
            digit_run(rest) < rest.len() ==> !(48 <= rest[digit_run(rest) as int] <= 57),
            end - start <= 3 ==> value == digits_value(rest.take(end - start)),
            value <= 999,
            end - start == 0 ==> value == 0,
            end - start == 1 ==> value <= 9,
            end - start == 2 ==> value <= 99,
        decreases text@.len() - end,
    {
        let ghost taken = rest.take(end - start + 1);
        assert(taken.drop_last() =~= rest.take(end - start));
        assert(rest[end - start] == text@[end as int]);
        if end - start < 3 {
            value = value * 10 + (text[end] - 48) as u16;
        }
        end += 1;
    }
    if end < text.len() {
        assert(rest[end - start] == text@[end as int]);
    }
    (value, end)
}

pub fn parse_ipv4(text: &str) -> (address: Option<[u8; 4]>)
    ensures
        match address {
            Some(parts) => ipv4_address(text.spec_bytes()) == Some(parts@),
            None => ipv4_address(text.spec_bytes()) is None,
        },
{
    parse_ipv4_bytes(text.as_bytes())
}

/// The address that bytes write in dotted decimal.
pub fn parse_ipv4_bytes(bytes: &[u8]) -> (address: Option<[u8; 4]>)
    ensures
        match address {
            Some(parts) => ipv4_address(bytes@) == Some(parts@),
            None => ipv4_address(bytes@) is None,
        },
{
    let mut output: [u8; 4] = [0u8; 4];
    let mut part: usize = 0;
    let mut start: usize = 0;
    assert(bytes@.skip(0) =~= bytes@);
    assert(output@.take(0) + octets(bytes@).unwrap() =~= octets(bytes@).unwrap());
    loop
        invariant
            part < 4,
            start <= bytes@.len(),
            octets(bytes@) == (match octets(bytes@.skip(start as int)) {
                Some(rest) => Some(output@.take(part as int) + rest),
                None => None,
            }),
        decreases bytes@.len() - start,
    {
        let ghost rest = bytes@.skip(start as int);
        let (value, end) = scan_octet(bytes, start);
        let ghost before = output@;
        if end == start || end - start > 3 || value > 255 {
            return None;
        }
        output[part] = value as u8;
        part += 1;
        assert(output@.take(part as int) =~= before.take(part - 1) + seq![value as u8]);
        if end == bytes.len() {
            assert(octets(bytes@) == Some(output@.take(part as int)));
            if part == 4 {
                assert(output@.take(4) =~= output@);
                return Some(output);
            }
            return None;
        }
        if bytes[end] != 46 {
            return None;
        }
        assert(rest.skip(end - start + 1) =~= bytes@.skip(end + 1));
        if part == 4 {
            proof {
                lemma_octets_nonempty(rest.skip(end - start + 1));
            }
            return None;
        }
        proof {
            if let Some(tail) = octets(bytes@.skip(end + 1)) {
                assert(before.take(part - 1) + (seq![value as u8] + tail) =~= output@.take(
                    part as int,
                ) + tail);
            }
        }
        start = end + 1;
    }
}

proof fn lemma_octets_nonempty(text: Seq<u8>)
    ensures
        octets(text) matches Some(parts) ==> parts.len() >= 1,
{
}

/// The sum of the bytes of `data`.
pub open spec fn byte_sum(data: Seq<u8>) -> nat
    decreases data.len(),
{
    if data.len() == 0 {
        0
    } else {
        byte_sum(data.drop_last()) + data.last() as nat
    }
}

/// Whether the bytes of a firmware table sum to zero modulo 256.
pub fn checksum8_is_zero(data: &[u8]) -> (zero: bool)
    ensures
        zero == (byte_sum(data@) % 256 == 0),
{
    let mut sum: u8 = 0;
    let mut index: usize = 0;
    while index < data.len()
        invariant
            index <= data@.len(),
            sum == byte_sum(data@.take(index as int)) % 256,
        decreases data@.len() - index,
    {
        assert(data@.take(index + 1).drop_last() =~= data@.take(index as int));
        sum = sum.wrapping_add(data[index]);
        index += 1;
    }
    assert(data@.take(index as int) =~= data@);
    sum == 0
}

/// Overwrites memory with zeroes.
pub fn zero_explicit(memory: &mut [u8])
    ensures
        final(memory)@ == Seq::new(old(memory)@.len(), |i: int| 0u8),
{
    let count: usize = memory.len();
    let mut index: usize = 0;
    while index < count
        invariant
            count == memory@.len(),
            count == old(memory)@.len(),
            index <= count,
            forall|i: int| 0 <= i < index ==> memory@[i] == 0,
        decreases count - index,
    {
        memory[index] = 0;
        index += 1;
    }
    assert(memory@ =~= Seq::new(old(memory)@.len(), |i: int| 0u8));
}

proof fn lemma_all_ones(value: u64, count: int)
    requires
        0 <= count <= 64,
        forall|j: int| 0 <= j < count ==> #[trigger] bits::bit64(value, j),
    ensures
        bits::ones64(value, count as nat) == count,
    decreases count,
{
    if count > 0 {
        lemma_all_ones(value, count - 1);
    }
}

/// One clear bit among 64 leaves 63 that are set.
proof fn lemma_one_clear(value: u64, clear: int, count: int)
    requires
        0 <= clear < count <= 64,
        !bits::bit64(value, clear),
        forall|j: int| 0 <= j < count && j != clear ==> #[trigger] bits::bit64(value, j),
    ensures
        bits::ones64(value, count as nat) == count - 1,
    decreases count,
{
    if count - 1 == clear {
        lemma_all_ones(value, clear);
    } else {
        lemma_one_clear(value, clear, count - 1);
    }
}

/// Whether the loops give what they should on small examples: they do.
pub fn self_test() -> (passed: bool)
    ensures
        passed,
{
    bitmap_test() && sort_test() && parse_test() && sum_test()
}

fn bitmap_test() -> (passed: bool)
    ensures
        passed,
{
    let mut bitmap: Vec<u64> = vec![0, 0];
    bitmap_fill(bitmap.as_mut_slice(), u64::MAX);
    bitmap[1] = 0xffff_ffff_fffd_ffff;
    let ghost words = bitmap@;
    proof {
        let value = 0xffff_ffff_fffd_ffffu64;
        assert(words =~= seq![u64::MAX, value]);
        assert forall|j: int| 0 <= j < 64 implies #[trigger] bits::bit64(u64::MAX, j) by {
            let k = j as u64;
            assert(k < 64 ==> (0xffff_ffff_ffff_ffffu64 >> k) & 1u64 == 1u64) by (bit_vector);
        }
        assert forall|j: int| 0 <= j < 64 implies #[trigger] bits::bit64(value, j) == (j != 17) by {
            let k = j as u64;
            assert(k < 64 ==> ((0xffff_ffff_fffd_ffffu64 >> k) & 1u64 == 1u64) == (k != 17))
                by (bit_vector);
        }
        lemma_all_ones(u64::MAX, 64);
        lemma_one_clear(value, 17, 64);
        assert(words.drop_last() =~= seq![u64::MAX]);
        assert(words.drop_last().drop_last() =~= Seq::<u64>::empty());
        reveal_with_fuel(clear_bits, 3);
        assert(clear_bits(words) == 1);
    }
    let count: usize = bitmap_count_clear(bitmap.as_slice());
    let found = bitmap_find_clear(bitmap.as_slice(), 0);
    assert(words[1] != u64::MAX);
    assert(found is Some);
    proof {
        let (word, bit) = found->Some_0;
        if word == 0 {
            assert(bits::bit64(u64::MAX, bit as int));
        }
        assert(bits::bit64(words[1], bit as int) == (bit != 17));
    }
    match found {
        Some((word, bit)) => count == 1 && word == 1 && bit == 17,
        None => false,
    }
}

fn sort_test() -> (passed: bool)
    ensures
        passed,
{
    let mut values: Vec<u64> = vec![9, 1, 9, 4, 1, 7];
    let ghost before = values@;
    let unique: usize = sort_unique_u64(values.as_mut_slice());
    let ghost kept = values@.take(unique as int);
    proof {
        assert(before =~= seq![9u64, 1, 9, 4, 1, 7]);
        assert(before[1] == 1 && before[3] == 4 && before[5] == 7 && before[0] == 9);
        assert(before.contains(1) && before.contains(4) && before.contains(7) && before.contains(9));
        assert(kept.contains(1) && kept.contains(4) && kept.contains(7) && kept.contains(9));
        let one = kept.index_of(1);
        let four = kept.index_of(4);
        let seven = kept.index_of(7);
        let nine = kept.index_of(9);
        assert forall|i: int| 0 <= i < kept.len() implies #[trigger] kept[i] == 1 || kept[i] == 4
            || kept[i] == 7 || kept[i] == 9 by {
            assert(kept.contains(kept[i]));
            assert(before.contains(kept[i]));
        }
        assert(one < four && four < seven && seven < nine);
        assert(kept[0] < kept[1] && kept[1] < kept[2] && kept[2] < kept[3]);
        if kept.len() > 4 {
            assert(kept[3] < kept[4]);
        }
        assert(one == 0 && four == 1 && seven == 2 && nine == 3);
        assert(values@[0] == kept[0] && values@[1] == kept[1] && values@[2] == kept[2] && values@[3]
            == kept[3]);
    }
    unique == 4 && values[0] == 1 && values[1] == 4 && values[2] == 7 && values[3] == 9
}

fn sum_test() -> (passed: bool)
    ensures
        passed,
{
    let data: [u8; 8] = [0x00, 0x01, 0xf2, 0x03, 0xf4, 0xf5, 0xf6, 0xf7];
    let firmware: [u8; 3] = [1, 2, 253];
    let mut secret: Vec<u8> = vec![0xa5; 17];
    proof {
        let d = data@;
        assert(d.skip(2).skip(2) =~= d.skip(4));
        assert(d.skip(4).skip(2) =~= d.skip(6));
        assert(d.skip(6).skip(2) =~= d.skip(8));
        reveal_with_fuel(word_sum, 5);
        assert(word_sum(d) == 0x2ddf0);
        reveal_with_fuel(folded, 3);
        assert(folded(0x2ddf0) == 0xddf2);
        let f = firmware@;
        assert(f =~= seq![1u8, 2, 253]);
        assert(f.drop_last() =~= seq![1u8, 2]);
        assert(f.drop_last().drop_last() =~= seq![1u8]);
        reveal_with_fuel(byte_sum, 4);
        assert(byte_sum(f) == 256);
    }
    let checksum: u16 = internet_checksum(data.as_slice());
    let zero = checksum8_is_zero(firmware.as_slice());
    zero_explicit(secret.as_mut_slice());
    let mut cleared = true;
    let mut index: usize = 0;
    while index < 17
        invariant
            index <= 17,
            cleared,
            secret@ == Seq::new(17, |i: int| 0u8),
        decreases 17 - index,
    {
        cleared = cleared && secret[index] == 0;
        index += 1;
    }
    checksum == 0x220d && zero && cleared
}

fn parse_test() -> (passed: bool)
    ensures
        passed,
{
    let good = parse_ipv4("10.0.2.15");
    let bad = parse_ipv4("256.1.1.1");
    proof {
        reveal_strlit("10.0.2.15");
        reveal_strlit("256.1.1.1");
        lemma_literal_octets();
    }
    match (good, bad) {
        (Some(parts), None) => parts[0] == 10 && parts[1] == 0 && parts[2] == 2 && parts[3] == 15,
        _ => false,
    }
}

#[verifier::spinoff_prover]
proof fn lemma_literal_octets()
    ensures
        ipv4_address("10.0.2.15".spec_bytes()) == Some(seq![10u8, 0, 2, 15]),
        ipv4_address("256.1.1.1".spec_bytes()) is None,
{
    reveal_strlit("10.0.2.15");
    reveal_strlit("256.1.1.1");
    vstd::utf8::is_ascii_chars_encode_utf8("10.0.2.15"@);
    vstd::utf8::is_ascii_chars_encode_utf8("256.1.1.1"@);
    let good = seq![49u8, 48, 46, 48, 46, 50, 46, 49, 53];
    let bad = seq![50u8, 53, 54, 46, 49, 46, 49, 46, 49];
    assert("10.0.2.15".spec_bytes() =~= good);
    assert("256.1.1.1".spec_bytes() =~= bad);
    lemma_good_octets();
    lemma_bad_octets();
}

#[verifier::spinoff_prover]
proof fn lemma_two_digits(first: u8, second: u8, rest: Seq<u8>)
    requires
        48 <= first <= 57,
        48 <= second <= 57,
        rest.len() == 0 || rest[0] == 46,
    ensures
        digit_run(seq![first, second] + rest) == 2,
        digits_value((seq![first, second] + rest).take(2)) == (first - 48) * 10 + (second - 48),
{
    let text = seq![first, second] + rest;
    reveal_with_fuel(digit_run, 3);
    assert(text.skip(1)[0] == second);
    assert(text.skip(1).skip(1) =~= rest);
    let two = text.take(2);
    assert(two =~= seq![first, second]);
    assert(two.drop_last() =~= seq![first]);
    assert(two.drop_last().drop_last() =~= Seq::<u8>::empty());
    reveal_with_fuel(digits_value, 3);
}

#[verifier::spinoff_prover]
proof fn lemma_one_digit(digit: u8, rest: Seq<u8>)
    requires
        48 <= digit <= 57,
        rest.len() == 0 || rest[0] == 46,
    ensures
        digit_run(seq![digit] + rest) == 1,
        digits_value((seq![digit] + rest).take(1)) == digit - 48,
{
    let text = seq![digit] + rest;
    reveal_with_fuel(digit_run, 2);
    assert(text.skip(1) =~= rest);
    let one = text.take(1);
    assert(one =~= seq![digit]);
    assert(one.drop_last() =~= Seq::<u8>::empty());
    reveal_with_fuel(digits_value, 2);
}

#[verifier::spinoff_prover]
proof fn lemma_good_octets()
    ensures
        octets(seq![49u8, 48, 46, 48, 46, 50, 46, 49, 53]) == Some(seq![10u8, 0, 2, 15]),
{
    let fourth = seq![49u8, 53];
    let third = seq![50u8, 46, 49, 53];
    let second = seq![48u8, 46, 50, 46, 49, 53];
    let first = seq![49u8, 48, 46, 48, 46, 50, 46, 49, 53];
    lemma_two_digits(49, 53, Seq::empty());
    assert(fourth =~= seq![49u8, 53] + Seq::<u8>::empty());
    assert(octets(fourth) == Some(seq![15u8]));
    lemma_one_digit(50, seq![46u8, 49, 53]);
    assert(third =~= seq![50u8] + seq![46u8, 49, 53]);
    assert(third.skip(2) =~= fourth);
    assert(octets(third) == Some(seq![2u8] + seq![15u8]));
    lemma_one_digit(48, seq![46u8, 50, 46, 49, 53]);
    assert(second =~= seq![48u8] + seq![46u8, 50, 46, 49, 53]);
    assert(second.skip(2) =~= third);
    assert(octets(second) == Some(seq![0u8] + (seq![2u8] + seq![15u8])));
    lemma_two_digits(49, 48, seq![46u8, 48, 46, 50, 46, 49, 53]);
    assert(first =~= seq![49u8, 48] + seq![46u8, 48, 46, 50, 46, 49, 53]);
    assert(first.skip(3) =~= second);
    assert(octets(first) == Some(seq![10u8] + (seq![0u8] + (seq![2u8] + seq![15u8]))));
    assert(seq![10u8] + (seq![0u8] + (seq![2u8] + seq![15u8])) =~= seq![10u8, 0, 2, 15]);
}

#[verifier::spinoff_prover]
proof fn lemma_bad_octets()
    ensures
        octets(seq![50u8, 53, 54, 46, 49, 46, 49, 46, 49]) is None,
{
    let text = seq![50u8, 53, 54, 46, 49, 46, 49, 46, 49];
    reveal_with_fuel(digit_run, 4);
    assert(text.skip(1)[0] == 53);
    assert(text.skip(1).skip(1)[0] == 54);
    assert(text.skip(1).skip(1).skip(1)[0] == 46);
    assert(digit_run(text) == 3);
    let three = text.take(3);
    assert(three =~= seq![50u8, 53, 54]);
    assert(three.drop_last() =~= seq![50u8, 53]);
    assert(three.drop_last().drop_last() =~= seq![50u8]);
    assert(three.drop_last().drop_last().drop_last() =~= Seq::<u8>::empty());
    reveal_with_fuel(digits_value, 4);
    assert(digits_value(three) == 256);
}

} // verus!
