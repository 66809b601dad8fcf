//! A replicated data set: mutations, their replay, and the digest of a state.
use vstd::prelude::*;
use vstd::string::*;

use crate::error::{Error, ErrorKind};
use crate::text::{join2, str_eq};
use crate::textmap::{Duplicate, TextMap};

verus! {

/// What a data set holds.
pub type Values = Map<Seq<char>, Seq<char>>;

/// One logged change: `value` is put under `key`, or `key` is deleted.
#[derive(Debug)]
pub struct DatasetMutation {
    pub sequence: u64,
    pub key: String,
    pub value: Option<String>,
}

/// What a [`DatasetMutation`] means.
pub struct MutationView {
    pub sequence: u64,
    pub key: Seq<char>,
    pub value: Option<Seq<char>>,
}

/// The text in an optional string.
pub open spec fn opt_text(s: Option<String>) -> Option<Seq<char>> {
    match s {
        Some(t) => Some(t@),
        None => None,
    }
}

impl View for DatasetMutation {
    type V = MutationView;

    open spec fn view(&self) -> MutationView {
        MutationView { sequence: self.sequence, key: self.key@, value: opt_text(self.value) }
    }
}

impl Duplicate for DatasetMutation {
    fn duplicate(&self) -> (copy: Self) {
        let value: Option<String> = match &self.value {
            Some(v) => Some(v.duplicate()),
            None => None,
        };
        DatasetMutation { sequence: self.sequence, key: self.key.duplicate(), value }
    }
}

/// What a list of mutations means.
pub open spec fn mutations_view(s: Seq<DatasetMutation>) -> Seq<MutationView> {
    Seq::new(s.len(), |i: int| s[i]@)
}

/// The sequence number that has to follow `sequence`.
pub open spec fn next_sequence(sequence: u64) -> u64 {
    if sequence == u64::MAX {
        u64::MAX
    } else {
        (sequence + 1) as u64
    }
}

/// The sequence number reached after `batch`, from `sequence` on.
pub open spec fn end_sequence(sequence: u64, batch: Seq<MutationView>) -> u64 {
    if batch.len() == 0 {
        sequence
    } else {
        batch.last().sequence
    }
}

/// Whether `batch` continues the log that has reached `sequence`: no gap, and no empty key.
pub open spec fn continues(sequence: u64, batch: Seq<MutationView>) -> bool
    decreases batch.len(),
{
    batch.len() == 0 || {
        &&& continues(sequence, batch.drop_last())
        &&& batch.last().sequence == next_sequence(end_sequence(sequence, batch.drop_last()))
        &&& batch.last().key.len() > 0
    }
}

/// `values` after one mutation.
pub open spec fn mutated(values: Values, m: MutationView) -> Values {
    match m.value {
        Some(v) => values.insert(m.key, v),
        None => values.remove(m.key),
    }
}

/// `values` after every mutation of `batch` in turn.
pub open spec fn replay(values: Values, batch: Seq<MutationView>) -> Values
    decreases batch.len(),
{
    if batch.len() == 0 {
        values
    } else {
        mutated(replay(values, batch.drop_last()), batch.last())
    }
}

/// The message for a batch that does not continue the log.
pub open spec fn gap_error() -> (ErrorKind, Seq<char>) {
    (ErrorKind::InvalidData, "dataset WAL sequence is non-contiguous or key is empty"@)
}

/// The message for a batch without mutations.
pub open spec fn empty_error() -> (ErrorKind, Seq<char>) {
    (ErrorKind::InvalidData, "dataset mutation batch is empty"@)
}

/// An error that blames the data of a node or a bundle.
pub fn invalid(message: &str) -> (error: Error)
    ensures
        error@ == (ErrorKind::InvalidData, message@),
{
    Error::of(ErrorKind::InvalidData, message)
}

/// Copies of all mutations of a list.
pub fn duplicate_mutations(list: &[DatasetMutation]) -> (copy: Vec<DatasetMutation>)
    ensures
        mutations_view(copy@) == mutations_view(list@),
{
    let mut copy: Vec<DatasetMutation> = Vec::new();
    let mut i: usize = 0;
    while i < list.len()
        invariant
            i <= list@.len(),
            mutations_view(copy@) == mutations_view(list@).subrange(0, i as int),
        decreases list@.len() - i,
    {
        let ghost before = copy@;
        copy.push(list[i].duplicate());
        proof {
            assert(mutations_view(copy@) =~= mutations_view(before).push(list@[i as int]@));
            assert(mutations_view(copy@) =~= mutations_view(list@).subrange(0, i + 1));
        }
        i = i + 1;
    }
    proof {
        assert(mutations_view(list@).subrange(0, i as int) =~= mutations_view(list@));
    }
    copy
}

/// A batch that continues the log does so up to every one of its mutations.
pub proof fn lemma_continues_prefix(sequence: u64, batch: Seq<MutationView>, n: int)
    requires
        0 <= n <= batch.len(),
        continues(sequence, batch),
    ensures
        continues(sequence, batch.subrange(0, n)),
    decreases batch.len(),
{
    if n < batch.len() {
        lemma_continues_prefix(sequence, batch.drop_last(), n);
        assert(batch.drop_last().subrange(0, n) =~= batch.subrange(0, n));
    } else {
        assert(batch.subrange(0, n) =~= batch);
    }
}

/// Applies a batch of mutations to a data set and its log, all of it or nothing.
pub fn apply_mutations(
    sequence: &mut u64,
    values: &mut TextMap<String>,
    wal: &mut Vec<DatasetMutation>,
    mutations: &[DatasetMutation],
) -> (r: Result<(), Error>)
    ensures
        match r {
            Ok(_) => {
                let batch = mutations_view(mutations@);
                &&& batch.len() > 0
                &&& continues(*old(sequence), batch)
                &&& *final(sequence) == batch.last().sequence
                &&& final(values)@ == replay(old(values)@, batch)
                &&& mutations_view(final(wal)@) == mutations_view(old(wal)@) + batch
            },
            Err(e) => {
                let batch = mutations_view(mutations@);
                &&& batch.len() == 0 || !continues(*old(sequence), batch)
                &&& e@ == if batch.len() == 0 {
                    empty_error()
                } else {
                    gap_error()
                }
                &&& *final(sequence) == *old(sequence)
                &&& *final(values) == *old(values)
                &&& *final(wal) == *old(wal)
            },
        },
{
    if mutations.len() == 0 {
        return Err(invalid("dataset mutation batch is empty"));
    }
    let ghost batch = mutations_view(mutations@);
    let mut staged_sequence: u64 = *sequence;
    let mut staged_values: TextMap<String> = values.duplicate();
    let mut staged_wal: Vec<DatasetMutation> = duplicate_mutations(wal.as_slice());
    let mut i: usize = 0;
    proof {
        assert(batch.subrange(0, 0) =~= Seq::<MutationView>::empty());
        assert(mutations_view(staged_wal@) =~= mutations_view(wal@) + batch.subrange(0, 0));
    }
    while i < mutations.len()
        invariant
            i <= mutations@.len(),
            batch == mutations_view(mutations@),
            *sequence == *old(sequence),
            *values == *old(values),
            *wal == *old(wal),
            continues(*old(sequence), batch.subrange(0, i as int)),
            staged_sequence == end_sequence(*old(sequence), batch.subrange(0, i as int)),
            staged_values@ == replay(old(values)@, batch.subrange(0, i as int)),
            mutations_view(staged_wal@) == mutations_view(old(wal)@) + batch.subrange(0, i as int),
        decreases mutations@.len() - i,
    {
        let mutation: &DatasetMutation = &mutations[i];
        let ghost head = batch.subrange(0, i as int);
        let ghost grown = batch.subrange(0, i + 1);
        proof {
            assert(grown.drop_last() =~= head);
            assert(grown.last() == mutation@);
        }
        if mutation.sequence != staged_sequence.saturating_add(1) || mutation.key.as_str().is_empty() {
            proof {
                if continues(*old(sequence), batch) {
                    lemma_continues_prefix(*old(sequence), batch, i + 1);
                }
            }
            return Err(invalid("dataset WAL sequence is non-contiguous or key is empty"));
        }
        match &mutation.value {
            Some(value) => {
                staged_values.insert(mutation.key.duplicate(), value.duplicate());
            },
            None => {
                staged_values.remove(mutation.key.as_str());
            },
        }
        staged_sequence = mutation.sequence;
        let ghost logged = staged_wal@;
        staged_wal.push(mutation.duplicate());
        proof {
            assert(mutations_view(staged_wal@) =~= mutations_view(logged).push(mutation@));
            assert(mutations_view(old(wal)@) + grown =~= (mutations_view(old(wal)@) + head).push(
                mutation@,
            ));
        }
        i = i + 1;
    }
    proof {
        assert(batch.subrange(0, i as int) =~= batch);
    }
    *sequence = staged_sequence;
    *values = staged_values;
    *wal = staged_wal;
    Ok(())
}

/// The JSON text, as bytes, of a map of strings; keys in ascending order.
pub uninterp spec fn dataset_json(values: Map<Seq<char>, Seq<char>>) -> Seq<u8>;

/// The SHA-256 hash of a byte string.
pub uninterp spec fn sha256_of(data: Seq<u8>) -> Seq<u8>;

/// Whether no key occurs twice in a list of pairs.
pub open spec fn keys_differ(pairs: Seq<(String, String)>) -> bool {
    forall|i: int, j: int|
        0 <= i < j < pairs.len() ==> (#[trigger] pairs[i]).0@ != (#[trigger] pairs[j]).0@
}

/// Whether a list of pairs has a key.
pub open spec fn has_key(pairs: Seq<(String, String)>, key: Seq<char>) -> bool {
    exists|i: int| 0 <= i < pairs.len() && (#[trigger] pairs[i]).0@ == key
}

/// The map that a list of pairs with different keys writes down.
pub open spec fn pair_map(pairs: Seq<(String, String)>) -> Map<Seq<char>, Seq<char>> {
    Map::new(
        |key: Seq<char>| has_key(pairs, key),
        |key: Seq<char>|
            pairs[choose|i: int| 0 <= i < pairs.len() && (#[trigger] pairs[i]).0@ == key].1@,
    )
}

/// `serde_json::to_vec` on a `BTreeMap` of strings. The bytes depend on the entries alone, since
/// the `BTreeMap` orders them. That function documents failure only for a value whose `Serialize`
/// fails or for a map with keys other than strings; neither is the case here, so the call succeeds.
#[verifier::external_body]
fn encode_json(pairs: &Vec<(String, String)>) -> (bytes: Option<Vec<u8>>)
    requires
        keys_differ(pairs@),
    ensures
        bytes is Some,
        bytes->0@ == dataset_json(pair_map(pairs@)),
{
    let ordered: std::collections::BTreeMap<&str, &str> =
        pairs.iter().map(|(key, value)| (key.as_str(), value.as_str())).collect();
    serde_json::to_vec(&ordered).ok()
}

/// `sha2::Sha256::digest`: the hash of `data`, which is 32 bytes long.
#[verifier::external_body]
fn sha256(data: &[u8]) -> (hash: Vec<u8>)
    ensures
        hash@ == sha256_of(data@),
        hash@.len() == 32,
{
    <sha2::Sha256 as sha2::Digest>::digest(data).to_vec()
}

/// The character that writes the hexadecimal digit `d` below sixteen.
pub open spec fn hex_char(d: nat) -> char {
    if d < 10 {
        ('0' as nat + d) as char
    } else {
        ('a' as nat + d - 10) as char
    }
}

/// A byte string in hexadecimal, two small digits for each byte.
pub open spec fn hex_text(bytes: Seq<u8>) -> Seq<char>
    decreases bytes.len(),
{
    if bytes.len() == 0 {
        Seq::empty()
    } else {
        hex_text(bytes.drop_last()).push(hex_char(bytes.last() as nat / 16)).push(
            hex_char(bytes.last() as nat % 16),
        )
    }
}

proof fn lemma_hex_text_len(bytes: Seq<u8>)
    ensures
        hex_text(bytes).len() == 2 * bytes.len(),
    decreases bytes.len(),
{
    if bytes.len() > 0 {
        lemma_hex_text_len(bytes.drop_last());
    }
}

/// A hexadecimal digit.
pub fn hex_digit(d: u8) -> (c: char)
    requires
        d < 16,
    ensures
        c == hex_char(d as nat),
{
    if d < 10 {
        (48 + d) as char
    } else {
        (87 + d) as char
    }
}

/// The digest text of a hash: its name, a colon and the hash in hexadecimal.
pub fn digest_text(hash: &[u8]) -> (s: String)
    ensures
        s@ == "sha256:"@ + hex_text(hash@),
{
    let mut hex: String = String::new();
    let mut i: usize = 0;
    proof {
        assert(hash@.subrange(0, 0) =~= Seq::<u8>::empty());
        assert(hex@ =~= Seq::<char>::empty());
    }
    while i < hash.len()
        invariant
            i <= hash@.len(),
            hex@ == hex_text(hash@.subrange(0, i as int)),
        decreases hash@.len() - i,
    {
        proof {
            assert(hash@.subrange(0, i + 1).drop_last() =~= hash@.subrange(0, i as int));
        }
        hex.push(hex_digit(hash[i] / 16));
        hex.push(hex_digit(hash[i] % 16));
        i = i + 1;
    }
    proof {
        assert(hash@.subrange(0, i as int) =~= hash@);
    }
    join2("sha256:", hex.as_str())
}

/// The digest of a data set: the hash of its JSON text.
pub open spec fn digest_of(values: Values) -> Seq<char> {
    "sha256:"@ + hex_text(sha256_of(dataset_json(values)))
}

/// The digest of a data set.
pub fn dataset_digest(values: &TextMap<String>) -> (r: Result<String, Error>)
    ensures
        r is Ok,
        r->Ok_0@ == digest_of(values@),
        r->Ok_0@.len() == 71,
{
    let pairs: &Vec<(String, String)> = values.pairs();
    proof {
        assert(pair_map(pairs@) =~= values@);
    }
    match encode_json(pairs) {
        Some(encoded) => {
            let hash: Vec<u8> = sha256(encoded.as_slice());
            proof {
                reveal_strlit("sha256:");
                lemma_hex_text_len(hash@);
            }
            Ok(digest_text(hash.as_slice()))
        },
        None => Err(invalid("encode dataset digest input")),
    }
}

/// A data set with the sequence number it has reached and its digest.
#[derive(Debug)]
pub struct DatasetView {
    pub sequence: u64,
    pub values: TextMap<String>,
    pub digest: String,
}

impl DatasetView {
    /// Whether two views report the same state with the same digest.
    pub fn same(&self, other: &DatasetView) -> (yes: bool)
        ensures
            yes == (self.sequence == other.sequence && self.values@ == other.values@
                && self.digest@ == other.digest@),
    {
        self.sequence == other.sequence && self.values.same(&other.values) && str_eq(
            self.digest.as_str(),
            other.digest.as_str(),
        )
    }
}

/// Replaying two batches one after the other is replaying their concatenation.
pub proof fn law_replay_concat(values: Values, a: Seq<MutationView>, b: Seq<MutationView>)
    ensures
        replay(replay(values, a), b) == replay(values, a + b),
    decreases b.len(),
{
    if b.len() == 0 {
        assert(a + b =~= a);
    } else {
        law_replay_concat(values, a, b.drop_last());
        assert((a + b).drop_last() =~= a + b.drop_last());
    }
}

/// A log that reaches from `sequence` over two batches continues with each of them in turn.
pub proof fn law_continues_concat(sequence: u64, a: Seq<MutationView>, b: Seq<MutationView>)
    ensures
        continues(sequence, a + b) <==> continues(sequence, a) && continues(
            end_sequence(sequence, a),
            b,
        ),
        end_sequence(sequence, a + b) == end_sequence(end_sequence(sequence, a), b),
    decreases b.len(),
{
    if b.len() == 0 {
        assert(a + b =~= a);
    } else {
        law_continues_concat(sequence, a, b.drop_last());
        assert((a + b).drop_last() =~= a + b.drop_last());
    }
}

/// A mutation changes its own key only. A put leaves its value under the key and a deletion leaves the key
/// absent; every other key is present as before, with the value that it had.
pub proof fn law_a_mutation_changes_its_key_only(values: Values, m: MutationView, other: Seq<char>)
    requires
        other != m.key,
    ensures
        mutated(values, m).contains_key(m.key) == (m.value is Some),
        m.value is Some ==> mutated(values, m)[m.key] == m.value->0,
        mutated(values, m).contains_key(other) == values.contains_key(other),
        values.contains_key(other) ==> mutated(values, m)[other] == values[other],
{
}

/// After a batch, the last mutation of a key decides what the key holds, and a key that no mutation of the
/// batch names holds what it held before.
pub proof fn law_the_last_mutation_of_a_key_decides(
    values: Values,
    batch: Seq<MutationView>,
    key: Seq<char>,
)
    ensures
        (forall|j: int| 0 <= j < batch.len() ==> (#[trigger] batch[j]).key != key) ==> {
            &&& replay(values, batch).contains_key(key) == values.contains_key(key)
            &&& values.contains_key(key) ==> replay(values, batch)[key] == values[key]
        },
        forall|i: int|
            0 <= i < batch.len() && (#[trigger] batch[i]).key == key && (forall|j: int|
                i < j < batch.len() ==> (#[trigger] batch[j]).key != key) ==> {
                &&& replay(values, batch).contains_key(key) == (batch[i].value is Some)
                &&& batch[i].value is Some ==> replay(values, batch)[key] == batch[i].value->0
            },
    decreases batch.len(),
{
    if batch.len() > 0 {
        let head = batch.drop_last();
        law_the_last_mutation_of_a_key_decides(values, head, key);
        assert(forall|j: int| 0 <= j < head.len() ==> #[trigger] head[j] == batch[j]);
        assert(batch[batch.len() - 1] == batch.last());
        assert forall|i: int|
            0 <= i < batch.len() && (#[trigger] batch[i]).key == key && (forall|j: int|
                i < j < batch.len() ==> (#[trigger] batch[j]).key != key) implies {
            &&& replay(values, batch).contains_key(key) == (batch[i].value is Some)
            &&& batch[i].value is Some ==> replay(values, batch)[key] == batch[i].value->0
        } by {
            if i < batch.len() - 1 {
                assert(head[i] == batch[i]);
            }
        }
    }
}

/// A batch continues a log exactly where its mutations are numbered one by one from the number after the
/// one that the log has reached, and each of them names a key.
pub proof fn law_a_log_has_no_gaps(sequence: u64, batch: Seq<MutationView>)
    requires
        sequence + batch.len() <= u64::MAX,
    ensures
        continues(sequence, batch) <==> forall|i: int|
            0 <= i < batch.len() ==> (#[trigger] batch[i]).sequence == sequence + 1 + i
                && batch[i].key.len() > 0,
        continues(sequence, batch) ==> end_sequence(sequence, batch) == sequence + batch.len(),
    decreases batch.len(),
{
    if batch.len() > 0 {
        let head = batch.drop_last();
        law_a_log_has_no_gaps(sequence, head);
        assert(forall|j: int| 0 <= j < head.len() ==> #[trigger] head[j] == batch[j]);
        assert(batch[batch.len() - 1] == batch.last());
        if continues(sequence, batch) {
            assert forall|i: int| 0 <= i < batch.len() implies (#[trigger] batch[i]).sequence == sequence
                + 1 + i && batch[i].key.len() > 0 by {
                if i < head.len() {
                    assert(head[i] == batch[i]);
                }
            }
        }
        if forall|i: int|
            0 <= i < batch.len() ==> (#[trigger] batch[i]).sequence == sequence + 1 + i
                && batch[i].key.len() > 0 {
            assert forall|i: int| 0 <= i < head.len() implies (#[trigger] head[i]).sequence == sequence
                + 1 + i && head[i].key.len() > 0 by {
                assert(head[i] == batch[i]);
            }
            assert(continues(sequence, head));
        }
    }
}

/// The hexadecimal text of bytes has two digits for each byte, the high one first: a decimal digit stands
/// for its own value, and the letters from `a` to `f` for ten to fifteen.
pub proof fn law_hexadecimal_text_writes_each_byte(bytes: Seq<u8>, i: int)
    requires
        0 <= i < bytes.len(),
    ensures
        hex_text(bytes).len() == 2 * bytes.len(),
        ({
            let high = hex_text(bytes)[2 * i];
            let low = hex_text(bytes)[2 * i + 1];
            let h = if '0' <= high <= '9' {
                high as int - '0' as int
            } else {
                high as int - 'a' as int + 10
            };
            let l = if '0' <= low <= '9' {
                low as int - '0' as int
            } else {
                low as int - 'a' as int + 10
            };
            &&& '0' <= high <= '9' || 'a' <= high <= 'f'
            &&& '0' <= low <= '9' || 'a' <= low <= 'f'
            &&& 16 * h + l == bytes[i]
        }),
    decreases bytes.len(),
{
    lemma_hex_text_len(bytes);
    lemma_hex_text_len(bytes.drop_last());
    if i < bytes.len() - 1 {
        law_hexadecimal_text_writes_each_byte(bytes.drop_last(), i);
        assert(hex_text(bytes)[2 * i] == hex_text(bytes.drop_last())[2 * i]);
        assert(hex_text(bytes)[2 * i + 1] == hex_text(bytes.drop_last())[2 * i + 1]);
        assert(bytes.drop_last()[i] == bytes[i]);
    } else {
        let d = bytes[i] as nat;
        assert(hex_text(bytes)[2 * i] == hex_char(d / 16));
        assert(hex_text(bytes)[2 * i + 1] == hex_char(d % 16));
    }
}

} // verus!
