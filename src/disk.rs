//! What the receiver's disk operations do to the destination file and the
//! resume record, and the laws that the receiver's steps keep.
use crate::codec::{be_bytes, lemma_be_bytes_len, lemma_be_round_trip, lemma_pow256_facts};
use crate::receiver::{
    checkpoint, header_step, initial_state, read_step, record_contents, record_value, state_wf,
    DiskEffect, DiskImage, Phase, ReceiverState,
};
use vstd::prelude::*;
use vstd::utf8::valid_utf8;

verus! {

/// The disk after one operation.
pub open spec fn apply_effect(d: DiskImage, e: DiskEffect) -> DiskImage {
    match e {
        DiskEffect::Append(b) => DiskImage { file: d.file + b, record: d.record },
        DiskEffect::WriteRecord(b) => DiskImage { file: d.file, record: Some(b) },
        DiskEffect::RemoveRecord => DiskImage { file: d.file, record: None },
    }
}

/// The disk after a sequence of operations, in order.
pub open spec fn apply_effects(d: DiskImage, es: Seq<DiskEffect>) -> DiskImage
    decreases es.len(),
{
    if es.len() == 0 {
        d
    } else {
        apply_effects(apply_effect(d, es[0]), es.drop_first())
    }
}

/// The resume record claims no more bytes than the destination file holds.
pub open spec fn record_behind_file(d: DiskImage) -> bool {
    record_value(record_contents(d)) <= d.file.len()
}

/// `record_behind_file` holds before, between and after all of `es`: at
/// every point at which the process could be killed.
pub open spec fn always_behind(d: DiskImage, es: Seq<DiskEffect>) -> bool
    decreases es.len(),
{
    &&& record_behind_file(d)
    &&& es.len() > 0 ==> always_behind(apply_effect(d, es[0]), es.drop_first())
}

/// The receiver's state and the operations after it read each of `chunks`
/// in order.
pub open spec fn run_reads(s: ReceiverState, chunks: Seq<Seq<u8>>) -> (
    ReceiverState,
    Seq<DiskEffect>,
)
    decreases chunks.len(),
{
    if chunks.len() == 0 {
        (s, seq![])
    } else {
        let (s1, e1) = run_reads(s, chunks.drop_last());
        let (s2, e2) = read_step(s1, chunks.last());
        (s2, e1 + e2)
    }
}

/// The chunks one after another.
pub open spec fn concat_all(chunks: Seq<Seq<u8>>) -> Seq<u8>
    decreases chunks.len(),
{
    if chunks.len() == 0 {
        seq![]
    } else {
        concat_all(chunks.drop_last()) + chunks.last()
    }
}

pub open spec fn all_nonempty(chunks: Seq<Seq<u8>>) -> bool {
    forall|i: int| 0 <= i < chunks.len() ==> (#[trigger] chunks[i]).len() > 0
}

proof fn lemma_effects_concat(d: DiskImage, e1: Seq<DiskEffect>, e2: Seq<DiskEffect>)
    ensures
        apply_effects(d, e1 + e2) == apply_effects(apply_effects(d, e1), e2),
        always_behind(d, e1) && always_behind(apply_effects(d, e1), e2) ==> always_behind(
            d,
            e1 + e2,
        ),
    decreases e1.len(),
{
    if e1.len() == 0 {
        assert(e1 + e2 =~= e2);
    } else {
        lemma_effects_concat(apply_effect(d, e1[0]), e1.drop_first(), e2);
        assert((e1 + e2).drop_first() =~= e1.drop_first() + e2);
        assert((e1 + e2)[0] == e1[0]);
    }
}

proof fn lemma_record_of_checkpoint(n: u64)
    ensures
        record_value(be_bytes(n as nat, 8)) == n,
{
    lemma_pow256_facts();
    lemma_be_bytes_len(n as nat, 8);
    lemma_be_round_trip(n as nat, 8);
    assert(be_bytes(n as nat, 8).subrange(0, 8) =~= be_bytes(n as nat, 8));
}

/// Over any sequence of non-empty chunks whose total fits in 64 bits, from a
/// streaming receiver whose record holds its checkpoint and whose file holds
/// at least that many bytes: the file grows by exactly the chunks, the
/// record ends at the initial checkpoint plus the chunks' total length, and
/// at no point between two operations does the record claim more bytes than
/// the file holds.
pub proof fn lemma_checkpoint_tracks_file(s: ReceiverState, d: DiskImage, chunks: Seq<Seq<u8>>)
    requires
        s.phase == Phase::Streaming,
        state_wf(s),
        all_nonempty(chunks),
        checkpoint(s) + concat_all(chunks).len() <= u64::MAX,
        record_value(record_contents(d)) == checkpoint(s),
        checkpoint(s) <= d.file.len(),
    ensures
        ({
            let (s2, es) = run_reads(s, chunks);
            let d2 = apply_effects(d, es);
            &&& s2.phase == Phase::Streaming
            &&& state_wf(s2)
            &&& s2.resume_offset == s.resume_offset
            &&& s2.total_size == s.total_size
            &&& checkpoint(s2) == checkpoint(s) + concat_all(chunks).len()
            &&& d2.file == d.file + concat_all(chunks)
            &&& record_value(record_contents(d2)) == checkpoint(s2)
            &&& always_behind(d, es)
        }),
    decreases chunks.len(),
{
    if chunks.len() == 0 {
        assert(d.file + seq![] =~= d.file);
    } else {
        let prev = chunks.drop_last();
        let c = chunks.last();
        assert(all_nonempty(prev)) by {
            assert forall|i: int| 0 <= i < prev.len() implies (#[trigger] prev[i]).len() > 0 by {
                assert(prev[i] == chunks[i]);
            }
        }
        assert(c.len() > 0) by {
            assert(chunks[chunks.len() - 1] == c);
        }
        lemma_checkpoint_tracks_file(s, d, prev);
        let (s1, e1) = run_reads(s, prev);
        let d1 = apply_effects(d, e1);
        let (s2, e2) = read_step(s1, c);
        let s2_cp = checkpoint(s2);
        lemma_record_of_checkpoint(s2_cp as u64);
        lemma_effects_concat(d, e1, e2);
        let da = apply_effect(d1, e2[0]);
        let db = apply_effect(da, e2[1]);
        assert(e2.drop_first().drop_first() =~= seq![]);
        assert(e2.drop_first()[0] == e2[1]);
        assert(apply_effects(d1, e2) == apply_effects(da, e2.drop_first()));
        assert(apply_effects(da, e2.drop_first()) == apply_effects(
            db,
            e2.drop_first().drop_first(),
        ));
        assert(apply_effects(d1, e2) == db);
        assert(always_behind(d1, e2)) by {
            assert(e2.drop_first()[0] == e2[1]);
            assert(always_behind(db, e2.drop_first().drop_first()));
            assert(always_behind(da, e2.drop_first()));
        }
        assert(db.file =~= d.file + concat_all(chunks));
    }
}

/// On a clean end of stream after any sequence of non-empty chunks whose
/// total fits in 64 bits, from a streaming receiver whose file holds exactly
/// its checkpoint: the resume record is gone and the file holds the resume
/// offset plus every payload byte of this session.
pub proof fn lemma_completion_cleanup(s: ReceiverState, d: DiskImage, chunks: Seq<Seq<u8>>)
    requires
        s.phase == Phase::Streaming,
        state_wf(s),
        all_nonempty(chunks),
        checkpoint(s) + concat_all(chunks).len() <= u64::MAX,
        record_value(record_contents(d)) == checkpoint(s),
        d.file.len() == checkpoint(s),
    ensures
        ({
            let (s2, es) = run_reads(s, chunks.push(seq![]));
            let d2 = apply_effects(d, es);
            &&& s2.phase == Phase::Completed
            &&& d2.record is None
            &&& d2.file.len() == s2.resume_offset + s2.received
            &&& s2.received == s.received + concat_all(chunks).len()
            &&& always_behind(d, es)
        }),
{
    let all = chunks.push(seq![]);
    assert(all.drop_last() =~= chunks);
    lemma_checkpoint_tracks_file(s, d, chunks);
    let (s1, e1) = run_reads(s, chunks);
    let d1 = apply_effects(d, e1);
    let (s2, e2) = read_step(s1, seq![]);
    lemma_effects_concat(d, e1, e2);
    let da = apply_effect(d1, e2[0]);
    assert(e2.drop_first() =~= seq![]);
    assert(apply_effects(d1, e2) == apply_effects(da, e2.drop_first()));
    assert(apply_effects(d1, e2) == da);
    assert(always_behind(da, e2.drop_first()));
    assert(all.last() == Seq::<u8>::empty());
    assert(run_reads(s, all) == (s2, e1 + e2));
}

/// A restarted receiver whose file holds exactly the first R bytes of a
/// resource, with R in its record, that is served the rest of the resource
/// in any non-empty chunks, ends with a file equal to the whole resource,
/// byte for byte, and no record: what one uninterrupted transfer (R = 0,
/// empty file) gives too.
pub proof fn lemma_restart_reproduces_resource(
    resource: Seq<u8>,
    d: DiskImage,
    remaining: u64,
    name: Seq<u8>,
    chunks: Seq<Seq<u8>>,
)
    requires
        resource.len() <= u64::MAX,
        record_value(record_contents(d)) <= resource.len(),
        d.file == resource.subrange(0, record_value(record_contents(d)) as int),
        valid_utf8(name),
        all_nonempty(chunks),
        concat_all(chunks) == resource.subrange(
            record_value(record_contents(d)) as int,
            resource.len() as int,
        ),
    ensures
        ({
            let s0 = initial_state(record_contents(d));
            let s1 = header_step(s0, remaining, name);
            let (s2, es) = run_reads(s1, chunks.push(seq![]));
            let d2 = apply_effects(d, es);
            &&& s2.phase == Phase::Completed
            &&& d2.file == resource
            &&& d2.record is None
            &&& always_behind(d, es)
        }),
{
    let r = record_value(record_contents(d));
    let s0 = initial_state(record_contents(d));
    let s1 = header_step(s0, remaining, name);
    assert(checkpoint(s1) == r);
    lemma_completion_cleanup(s1, d, chunks);
    lemma_checkpoint_tracks_file(s1, d, chunks);
    let all = chunks.push(seq![]);
    assert(all.drop_last() =~= chunks);
    let (sa, ea) = run_reads(s1, chunks);
    let (sb, eb) = read_step(sa, seq![]);
    lemma_effects_concat(d, ea, eb);
    assert(eb.drop_first() =~= seq![]);
    assert(all.last() == Seq::<u8>::empty());
    assert(run_reads(s1, all) == (sb, ea + eb));
    let da = apply_effect(apply_effects(d, ea), eb[0]);
    assert(apply_effects(apply_effects(d, ea), eb) == apply_effects(da, eb.drop_first()));
    assert(d.file + concat_all(chunks) =~= resource);
}

/// A receiver that is not streaming ignores every read: it stays as it is
/// and asks for no disk operation.
pub proof fn lemma_idle_reads_write_nothing(s: ReceiverState, chunks: Seq<Seq<u8>>)
    requires
        s.phase != Phase::Streaming,
    ensures
        run_reads(s, chunks) == (s, Seq::<DiskEffect>::empty()),
    decreases chunks.len(),
{
    if chunks.len() > 0 {
        lemma_idle_reads_write_nothing(s, chunks.drop_last());
        assert(Seq::<DiskEffect>::empty() + Seq::<DiskEffect>::empty() =~= Seq::<
            DiskEffect,
        >::empty());
    }
}

/// A header whose name is not UTF-8 aborts the receiver, and nothing that
/// comes after it is written to disk.
pub proof fn lemma_invalid_name_aborts(
    s: ReceiverState,
    remaining: u64,
    name: Seq<u8>,
    chunks: Seq<Seq<u8>>,
)
    requires
        s.phase == Phase::Handshaking,
        !valid_utf8(name),
    ensures
        header_step(s, remaining, name).phase == Phase::Aborted,
        run_reads(header_step(s, remaining, name), chunks).1.len() == 0,
{
    lemma_idle_reads_write_nothing(header_step(s, remaining, name), chunks);
}

} // verus!
