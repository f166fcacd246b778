use vstd::prelude::*;
use crate::error::Error;

verus! {

/// A record's key: the toolchain's label and the benchmark's name.
pub type Key = (Seq<char>, Seq<char>);

/// One measurement outcome of a benchmark under a toolchain.
#[derive(Debug, Clone)]
pub struct Record {
    pub toolchain: String,
    pub benchmark: String,
    pub success: bool,
    pub payload: Vec<u8>,
}

/// One persisted record as read back from the store: its key, taken from
/// where it is stored, and its undecoded body.
#[derive(Debug, Clone)]
pub struct StoredRecord {
    pub toolchain: String,
    pub benchmark: String,
    pub body: Vec<u8>,
}

pub open spec fn key_of(r: Record) -> Key {
    (r.toolchain@, r.benchmark@)
}

pub open spec fn stored_key_of(r: StoredRecord) -> Key {
    (r.toolchain@, r.benchmark@)
}

/// The status line that opens a successful record's body: `ok` and a newline.
pub open spec fn ok_tag() -> Seq<u8> {
    seq![111u8, 107u8, 10u8]
}

/// The status line that opens a failed record's body: `failed` and a newline.
pub open spec fn failed_tag() -> Seq<u8> {
    seq![102u8, 97u8, 105u8, 108u8, 101u8, 100u8, 10u8]
}

/// A record's body on disk: its status line, then the payload bytes.
pub open spec fn spec_encode_body(success: bool, payload: Seq<u8>) -> Seq<u8> {
    if success {
        ok_tag() + payload
    } else {
        failed_tag() + payload
    }
}

/// Reads a body back: the status and payload it encodes, `None` when it opens
/// with neither status line.
pub open spec fn spec_decode_body(body: Seq<u8>) -> Option<(bool, Seq<u8>)> {
    if body.len() >= 3 && body.subrange(0, 3) == ok_tag() {
        Some((true, body.subrange(3, body.len() as int)))
    } else if body.len() >= 7 && body.subrange(0, 7) == failed_tag() {
        Some((false, body.subrange(7, body.len() as int)))
    } else {
        None
    }
}

/// Decoding a body written by the encoder gives back its status and payload.
pub proof fn lemma_body_round_trip(success: bool, payload: Seq<u8>)
    ensures
        spec_decode_body(spec_encode_body(success, payload)) == Some((success, payload)),
{
    let e = spec_encode_body(success, payload);
    if success {
        assert(e.subrange(0, 3) =~= ok_tag());
        assert(e.subrange(3, e.len() as int) =~= payload);
    } else {
        assert(e.subrange(0, 7) =~= failed_tag());
        assert(e.subrange(7, e.len() as int) =~= payload);
        assert(e.subrange(0, 3) != ok_tag()) by {
            assert(e.subrange(0, 3)[0] == 102u8);
        }
    }
}

fn append_bytes(out: &mut Vec<u8>, src: &Vec<u8>)
    ensures
        final(out)@ == old(out)@ + src@,
{
    let mut i: usize = 0;
    let ghost start = out@;
    while i < src.len()
        invariant
            i <= src@.len(),
            out@ == start + src@.subrange(0, i as int),
        decreases src.len() - i,
    {
        out.push(src[i]);
        i = i + 1;
        proof {
            assert(src@.subrange(0, i as int) =~= src@.subrange(0, i - 1).push(src@[i - 1]));
        }
    }
    proof {
        assert(src@.subrange(0, i as int) =~= src@);
    }
}

/// Writes a record's body: `ok` or `failed` on the first line, then the payload.
pub fn encode_body(success: bool, payload: &Vec<u8>) -> (r: Vec<u8>)
    ensures
        r@ == spec_encode_body(success, payload@),
{
    let mut out: Vec<u8> = if success {
        vec![111u8, 107u8, 10u8]
    } else {
        vec![102u8, 97u8, 105u8, 108u8, 101u8, 100u8, 10u8]
    };
    proof {
        if success {
            assert(out@ =~= ok_tag());
        } else {
            assert(out@ =~= failed_tag());
        }
    }
    append_bytes(&mut out, payload);
    out
}

fn copy_range(src: &Vec<u8>, from: usize) -> (r: Vec<u8>)
    requires
        from <= src@.len(),
    ensures
        r@ == src@.subrange(from as int, src@.len() as int),
{
    let mut out: Vec<u8> = Vec::new();
    let mut i: usize = from;
    while i < src.len()
        invariant
            from <= i <= src@.len(),
            out@ == src@.subrange(from as int, i as int),
        decreases src.len() - i,
    {
        out.push(src[i]);
        i = i + 1;
        proof {
            assert(out@ =~= src@.subrange(from as int, i as int));
        }
    }
    out
}

fn starts_with_tag(body: &Vec<u8>, tag: &Vec<u8>) -> (r: bool)
    ensures
        r == (body@.len() >= tag@.len() && body@.subrange(0, tag@.len() as int) == tag@),
{
    if body.len() < tag.len() {
        return false;
    }
    let mut i: usize = 0;
    while i < tag.len()
        invariant
            i <= tag@.len() <= body@.len(),
            forall|j: int| 0 <= j < i ==> body@[j] == tag@[j],
        decreases tag.len() - i,
    {
        if body[i] != tag[i] {
            proof {
                assert(body@.subrange(0, tag@.len() as int)[i as int] != tag@[i as int]);
            }
            return false;
        }
        i = i + 1;
    }
    proof {
        assert(body@.subrange(0, tag@.len() as int) =~= tag@);
    }
    true
}

/// Reads a record's body back into its status and payload; `None` for a body
/// that opens with neither status line.
pub fn decode_body(body: &Vec<u8>) -> (r: Option<(bool, Vec<u8>)>)
    ensures
        r matches Some(p) ==> spec_decode_body(body@) == Some((p.0, p.1@)),
        r is None ==> spec_decode_body(body@) is None,
{
    let ok = vec![111u8, 107u8, 10u8];
    let failed = vec![102u8, 97u8, 105u8, 108u8, 101u8, 100u8, 10u8];
    proof {
        assert(ok@ =~= ok_tag());
        assert(failed@ =~= failed_tag());
    }
    if starts_with_tag(body, &ok) {
        Some((true, copy_range(body, 3)))
    } else if starts_with_tag(body, &failed) {
        Some((false, copy_range(body, 7)))
    } else {
        None
    }
}

/// The keys recorded in a sequence of records.
pub open spec fn keys_of(rs: Seq<Record>) -> Set<Key> {
    Set::new(|k: Key| exists|i: int| 0 <= i < rs.len() && key_of(#[trigger] rs[i]) == k)
}

/// The keys under which a store holds records.
pub open spec fn stored_keys(s: Seq<StoredRecord>) -> Set<Key> {
    Set::new(|k: Key| exists|i: int| 0 <= i < s.len() && stored_key_of(#[trigger] s[i]) == k)
}

/// Whether every persisted body can be read back.
pub open spec fn all_decodable(s: Seq<StoredRecord>) -> bool {
    forall|i: int| 0 <= i < s.len() ==> (#[trigger] spec_decode_body(s[i].body@)) is Some
}

/// Whether `rec` is what some persisted record reads back as: the same key,
/// and the status and payload that its body encodes.
pub open spec fn rebuilt_from(rec: Record, stored: Seq<StoredRecord>) -> bool {
    exists|i: int|
        0 <= i < stored.len() && stored_key_of(#[trigger] stored[i]) == key_of(rec)
            && spec_decode_body(stored[i].body@) == Some((rec.success, rec.payload@))
}

/// The records after `rec` is offered: unchanged when its key is already
/// recorded, else with `rec` appended.
pub open spec fn spec_after_record(rs: Seq<Record>, rec: Record) -> Seq<Record> {
    if keys_of(rs).contains(key_of(rec)) {
        rs
    } else {
        rs.push(rec)
    }
}

/// The in-memory index of the result store: at most one record per key, in
/// the order they were recorded. It decides which measurements are still owed.
pub struct Collector {
    records: Vec<Record>,
}

impl Collector {
    pub closed spec fn view_records(&self) -> Seq<Record> {
        self.records@
    }

    pub open spec fn known(&self) -> Set<Key> {
        keys_of(self.view_records())
    }

    /// No two records share a key.
    pub open spec fn wf(&self) -> bool {
        forall|i: int, j: int|
            0 <= i < self.view_records().len() && 0 <= j < self.view_records().len() && i != j
                ==> key_of(#[trigger] self.view_records()[i]) != key_of(
                #[trigger] self.view_records()[j],
            )
    }

    /// A collector that knows no record: a fresh store.
    pub fn new() -> (r: Collector)
        ensures
            r.wf(),
            r.view_records() == Seq::<Record>::empty(),
            r.known() == Set::<Key>::empty(),
    {
        let r = Collector { records: Vec::new() };
        proof {
            assert(r.known() =~= Set::<Key>::empty());
        }
        r
    }

    /// The records, in the order they were recorded.
    pub fn records(&self) -> (r: &Vec<Record>)
        ensures
            r@ == self.view_records(),
    {
        &self.records
    }

    /// Whether a record for this toolchain and benchmark is already held.
    pub fn is_recorded(&self, toolchain: &String, benchmark: &String) -> (r: bool)
        ensures
            r == self.known().contains((toolchain@, benchmark@)),
    {
        let mut i: usize = 0;
        while i < self.records.len()
            invariant
                i <= self.records@.len(),
                forall|j: int|
                    0 <= j < i ==> key_of(#[trigger] self.records@[j]) != (toolchain@, benchmark@),
            decreases self.records.len() - i,
        {
            let rec = &self.records[i];
            if rec.toolchain == *toolchain && rec.benchmark == *benchmark {
                proof {
                    assert(key_of(self.records@[i as int]) == (toolchain@, benchmark@));
                }
                return true;
            }
            i = i + 1;
        }
        false
    }

    /// Offers a record: it is kept only when no record with its key is held,
    /// so an existing record is never replaced. Returns whether it was kept.
    pub fn record(&mut self, rec: Record) -> (r: bool)
        requires
            old(self).wf(),
        ensures
            final(self).wf(),
            r == !old(self).known().contains(key_of(rec)),
            final(self).view_records() == spec_after_record(old(self).view_records(), rec),
            final(self).known() == old(self).known().insert(key_of(rec)),
    {
        if self.is_recorded(&rec.toolchain, &rec.benchmark) {
            proof {
                assert(self.known() =~= self.known().insert(key_of(rec)));
            }
            false
        } else {
            let ghost before = self.records@;
            self.records.push(rec);
            proof {
                assert(self.records@[before.len() as int] == rec);
                assert forall|k: Key| #[trigger] self.known().contains(k) == keys_of(before).insert(
                    key_of(rec),
                ).contains(k) by {
                    if keys_of(before).contains(k) {
                        let i = choose|i: int| 0 <= i < before.len() && key_of(before[i]) == k;
                        assert(self.records@[i] == before[i]);
                    }
                    if self.known().contains(k) {
                        let i = choose|i: int|
                            0 <= i < self.records@.len() && key_of(self.records@[i]) == k;
                        if i < before.len() {
                            assert(self.records@[i] == before[i]);
                        }
                    }
                }
                assert(self.known() =~= keys_of(before).insert(key_of(rec)));
                assert forall|i: int, j: int|
                    0 <= i < self.records@.len() && 0 <= j < self.records@.len() && i != j
                        implies key_of(#[trigger] self.records@[i]) != key_of(
                        #[trigger] self.records@[j],
                    ) by {
                    if i < before.len() && j < before.len() {
                        assert(self.records@[i] == before[i]);
                        assert(self.records@[j] == before[j]);
                    } else if i < before.len() {
                        assert(self.records@[i] == before[i]);
                    } else {
                        assert(self.records@[j] == before[j]);
                    }
                }
            }
            true
        }
    }

    /// Rebuilds the index from what the store holds. Fails when a persisted
    /// body cannot be read back; else every stored key is known, and no other.
    pub fn rehydrate(stored: &Vec<StoredRecord>) -> (r: Result<Collector, Error>)
        ensures
            r is Err <==> !all_decodable(stored@),
            r matches Err(e) ==> e == Error::StoreCorrupt,
            r matches Ok(c) ==> c.wf() && c.known() == stored_keys(stored@),
            r matches Ok(c) ==> forall|j: int|
                0 <= j < c.view_records().len() ==> #[trigger] rebuilt_from(
                    c.view_records()[j],
                    stored@,
                ),
    {
        let mut c = Collector::new();
        let mut i: usize = 0;
        while i < stored.len()
            invariant
                i <= stored@.len(),
                c.wf(),
                c.known() == stored_keys(stored@.subrange(0, i as int)),
                forall|j: int|
                    0 <= j < c.view_records().len() ==> #[trigger] rebuilt_from(
                        c.view_records()[j],
                        stored@,
                    ),
                forall|j: int| 0 <= j < i ==> (#[trigger] spec_decode_body(stored@[j].body@)) is Some,
            decreases stored.len() - i,
        {
            let s = &stored[i];
            match decode_body(&s.body) {
                None => {
                    return Err(Error::StoreCorrupt);
                },
                Some((success, payload)) => {
                    let rec = Record {
                        toolchain: s.toolchain.clone(),
                        benchmark: s.benchmark.clone(),
                        success,
                        payload,
                    };
                    proof {
                        assert(rebuilt_from(rec, stored@)) by {
                            assert(stored_key_of(stored@[i as int]) == key_of(rec));
                        }
                    }
                    let ghost prev = c.view_records();
                    c.record(rec);
                    proof {
                        assert forall|j: int| 0 <= j < c.view_records().len() implies #[trigger] rebuilt_from(
                            c.view_records()[j],
                            stored@,
                        ) by {
                            if j < prev.len() {
                                assert(c.view_records()[j] == prev[j]);
                            }
                        }
                    }
                    proof {
                        let pre = stored@.subrange(0, i as int);
                        let post = stored@.subrange(0, i + 1);
                        assert forall|k: Key| #[trigger] stored_keys(post).contains(k)
                            == stored_keys(pre).insert(stored_key_of(stored@[i as int])).contains(k) by {
                            if stored_keys(pre).contains(k) {
                                let j = choose|j: int| 0 <= j < pre.len() && stored_key_of(pre[j]) == k;
                                assert(post[j] == pre[j]);
                            }
                            if stored_keys(post).contains(k) {
                                let j = choose|j: int| 0 <= j < post.len() && stored_key_of(post[j]) == k;
                                if j < pre.len() {
                                    assert(post[j] == pre[j]);
                                }
                            }
                            assert(post[i as int] == stored@[i as int]);
                        }
                        assert(stored_keys(post) =~= stored_keys(pre).insert(
                            stored_key_of(stored@[i as int]),
                        ));
                    }
                },
            }
            i = i + 1;
        }
        proof {
            assert(stored@.subrange(0, i as int) =~= stored@);
        }
        Ok(c)
    }
}

/// Rehydrating the same store twice, with no write in between, gives two
/// collectors that know the same keys.
pub proof fn lemma_rehydrate_idempotent(
    stored: Seq<StoredRecord>,
    first: Collector,
    second: Collector,
)
    requires
        first.known() == stored_keys(stored),
        second.known() == stored_keys(stored),
    ensures
        first.known() == second.known(),
{
}

/// Offering a record whose key is already held changes nothing: the held
/// record stays as it was, and no second record appears.
pub proof fn lemma_dedup_keeps_record(rs: Seq<Record>, rec: Record)
    requires
        keys_of(rs).contains(key_of(rec)),
    ensures
        spec_after_record(rs, rec) == rs,
{
}

} // verus!
