//! The fixed binary encoding of a session snapshot, as framed on the wire:
//! one state tag byte, then the tick counter, the width and the height as
//! little-endian 64-bit integers, then one byte per cell in row-major
//! order, 1 for alive and 0 for dead.

use vstd::prelude::*;

use crate::gameoflife::Cellule;
use crate::gameoflife::Simulation;
use crate::gameoflife::State;
use crate::gameoflife::lemma_cell_eq;

verus! {

/// The eight little-endian bytes of a 64-bit integer.
pub open spec fn u64_le(x: u64) -> Seq<u8> {
    seq![
        x as u8,
        (x >> 8) as u8,
        (x >> 16) as u8,
        (x >> 24) as u8,
        (x >> 32) as u8,
        (x >> 40) as u8,
        (x >> 48) as u8,
        (x >> 56) as u8,
    ]
}

/// The 64-bit integer read back from eight little-endian bytes.
pub open spec fn u64_from_le(b: Seq<u8>) -> u64 {
    (b[0] as u64) | ((b[1] as u64) << 8) | ((b[2] as u64) << 16) | ((b[3] as u64) << 24) | ((
    b[4] as u64) << 32) | ((b[5] as u64) << 40) | ((b[6] as u64) << 48) | ((b[7] as u64) << 56)
}

/// Reading the eight bytes of an integer back gives the integer.
pub proof fn lemma_u64_round_trip(x: u64)
    ensures
        u64_from_le(u64_le(x)) == x,
{
    assert((x as u8 as u64) | ((x >> 8) as u8 as u64) << 8 | ((x >> 16) as u8 as u64) << 16 | ((x
        >> 24) as u8 as u64) << 24 | ((x >> 32) as u8 as u64) << 32 | ((x >> 40) as u8 as u64) << 40
        | ((x >> 48) as u8 as u64) << 48 | ((x >> 56) as u8 as u64) << 56 == x) by (bit_vector);
}

/// Writing an integer read from eight bytes gives the eight bytes back.
proof fn lemma_u64_le_of_from(b: Seq<u8>)
    requires
        b.len() == 8,
    ensures
        u64_le(u64_from_le(b)) =~= b,
{
    let b0 = b[0];
    let b1 = b[1];
    let b2 = b[2];
    let b3 = b[3];
    let b4 = b[4];
    let b5 = b[5];
    let b6 = b[6];
    let b7 = b[7];
    let x = (b0 as u64) | ((b1 as u64) << 8) | ((b2 as u64) << 16) | ((b3 as u64) << 24) | ((
    b4 as u64) << 32) | ((b5 as u64) << 40) | ((b6 as u64) << 48) | ((b7 as u64) << 56);
    assert(x as u8 == b0 && (x >> 8) as u8 == b1 && (x >> 16) as u8 == b2 && (x >> 24) as u8 == b3
        && (x >> 32) as u8 == b4 && (x >> 40) as u8 == b5 && (x >> 48) as u8 == b6 && (x
        >> 56) as u8 == b7) by (bit_vector)
        requires
            x == (b0 as u64) | ((b1 as u64) << 8) | ((b2 as u64) << 16) | ((b3 as u64) << 24) | ((
            b4 as u64) << 32) | ((b5 as u64) << 40) | ((b6 as u64) << 48) | ((b7 as u64) << 56),
    ;
}

/// The one-byte tag of a lifecycle state.
pub open spec fn state_tag(s: State) -> u8 {
    match s {
        State::Starting => 0,
        State::Running => 1,
        State::Pausing => 2,
        State::Ended => 3,
    }
}

/// The one-byte encoding of a cell: 1 alive, 0 dead.
pub open spec fn cell_byte(c: Cellule) -> u8 {
    if c.is_alive() {
        1
    } else {
        0
    }
}

/// The bytes of a whole grid, one per cell in row-major order.
pub open spec fn cell_bytes(cells: Seq<Cellule>) -> Seq<u8> {
    Seq::new(cells.len(), |i: int| cell_byte(cells[i]))
}

/// The full wire encoding of one snapshot.
pub open spec fn snapshot_bytes(sim: Simulation) -> Seq<u8> {
    seq![state_tag(sim.spec_state())] + u64_le(sim.spec_ticks() as u64) + u64_le(
        sim.spec_width() as u64,
    ) + u64_le(sim.spec_height() as u64) + cell_bytes(sim.grid())
}

/// What a byte sequence must look like to be the encoding of some
/// well-formed snapshot.
pub open spec fn valid_snapshot_bytes(b: Seq<u8>) -> bool {
    &&& b.len() >= 25
    &&& b[0] <= 3
    &&& u64_from_le(b.subrange(1, 9)) <= usize::MAX
    &&& 1 <= u64_from_le(b.subrange(9, 17)) <= 0x7fff
    &&& 1 <= u64_from_le(b.subrange(17, 25)) <= 0x7fff
    &&& b.len() == 25 + u64_from_le(b.subrange(9, 17)) * u64_from_le(b.subrange(17, 25))
    &&& forall|i: int| 25 <= i < b.len() ==> (#[trigger] b[i]) == 0 || b[i] == 1
}

fn push_u64_le(out: &mut Vec<u8>, x: u64)
    ensures
        final(out)@ == old(out)@ + u64_le(x),
{
    out.push(#[verifier::truncate] (x as u8));
    out.push(#[verifier::truncate] ((x >> 8) as u8));
    out.push(#[verifier::truncate] ((x >> 16) as u8));
    out.push(#[verifier::truncate] ((x >> 24) as u8));
    out.push(#[verifier::truncate] ((x >> 32) as u8));
    out.push(#[verifier::truncate] ((x >> 40) as u8));
    out.push(#[verifier::truncate] ((x >> 48) as u8));
    out.push(#[verifier::truncate] ((x >> 56) as u8));
    proof {
        assert(out@ =~= old(out)@ + u64_le(x));
    }
}

fn read_u64_le(bytes: &[u8], off: usize) -> (x: u64)
    requires
        off + 8 <= bytes@.len(),
    ensures
        x == u64_from_le(bytes@.subrange(off as int, off as int + 8)),
{
    let x = (bytes[off] as u64) | ((bytes[off + 1] as u64) << 8) | ((bytes[off + 2] as u64) << 16)
        | ((bytes[off + 3] as u64) << 24) | ((bytes[off + 4] as u64) << 32) | ((bytes[off
        + 5] as u64) << 40) | ((bytes[off + 6] as u64) << 48) | ((bytes[off + 7] as u64) << 56);
    proof {
        let b = bytes@.subrange(off as int, off as int + 8);
        assert(b[0] == bytes@[off as int]);
        assert(b[1] == bytes@[off as int + 1]);
        assert(b[2] == bytes@[off as int + 2]);
        assert(b[3] == bytes@[off as int + 3]);
        assert(b[4] == bytes@[off as int + 4]);
        assert(b[5] == bytes@[off as int + 5]);
        assert(b[6] == bytes@[off as int + 6]);
        assert(b[7] == bytes@[off as int + 7]);
    }
    x
}

/// Serializes one snapshot into its exact wire bytes.
pub fn encode_snapshot(sim: &Simulation) -> (r: Vec<u8>)
    requires
        sim.wf(),
    ensures
        r@ == snapshot_bytes(*sim),
{
    let mut out: Vec<u8> = Vec::new();
    let tag: u8 = match sim.state() {
        State::Starting => 0,
        State::Running => 1,
        State::Pausing => 2,
        State::Ended => 3,
    };
    out.push(tag);
    push_u64_le(&mut out, sim.ticks() as u64);
    push_u64_le(&mut out, sim.width() as u64);
    push_u64_le(&mut out, sim.height() as u64);
    let ghost header = out@;
    let cells = sim.cellules();
    let n = cells.len();
    let mut i: usize = 0;
    while i < n
        invariant
            0 <= i <= n,
            n == cells@.len(),
            cells@ == sim.grid(),
            out@ == header + cell_bytes(cells@.take(i as int)),
        decreases n - i,
    {
        let b: u8 = if cells[i].alive() {
            1
        } else {
            0
        };
        out.push(b);
        proof {
            assert(cell_bytes(cells@.take(i as int + 1)) =~= cell_bytes(
                cells@.take(i as int),
            ).push(cell_byte(cells@[i as int])));
            assert(out@ =~= header + cell_bytes(cells@.take(i as int + 1)));
        }
        i = i + 1;
    }
    proof {
        assert(cells@.take(n as int) =~= cells@);
        assert(out@ =~= snapshot_bytes(*sim));
    }
    out
}

/// Parses wire bytes back into a snapshot. It succeeds exactly on valid
/// encodings, and whatever it returns re-encodes to the very same bytes.
pub fn decode_snapshot(bytes: &[u8]) -> (r: Option<Simulation>)
    ensures
        r is Some <==> valid_snapshot_bytes(bytes@),
        r matches Some(s) ==> s.wf() && snapshot_bytes(s) == bytes@,
{
    if bytes.len() < 25 {
        return None;
    }
    let tag = bytes[0];
    if tag > 3 {
        return None;
    }
    let state = if tag == 0 {
        State::Starting
    } else if tag == 1 {
        State::Running
    } else if tag == 2 {
        State::Pausing
    } else {
        State::Ended
    };
    let ticks64 = read_u64_le(bytes, 1);
    let w64 = read_u64_le(bytes, 9);
    let h64 = read_u64_le(bytes, 17);
    if w64 < 1 || w64 > 0x7fff || h64 < 1 || h64 > 0x7fff {
        return None;
    }
    if ticks64 > usize::MAX as u64 {
        return None;
    }
    let w = w64 as usize;
    let h = h64 as usize;
    proof {
        assert((w64 as int) * (h64 as int) <= 0x3fff0001) by (nonlinear_arith)
            requires
                1 <= w64 as int <= 0x7fff,
                1 <= h64 as int <= 0x7fff,
        ;
    }
    let total = w * h;
    if bytes.len() < 25 + total || bytes.len() > 25 + total {
        return None;
    }
    let mut cells: Vec<Cellule> = Vec::new();
    let mut i: usize = 0;
    while i < total
        invariant
            0 <= i <= total,
            total == w * h,
            total <= 0x3fff0001,
            bytes@.len() == 25 + total,
            cells@.len() == i,
            forall|k: int|
                0 <= k < i ==> (#[trigger] cells@[k]).is_alive() == (bytes@[25 + k] == 1),
            forall|k: int| 0 <= k < i ==> (#[trigger] bytes@[25 + k]) == 0 || bytes@[25 + k] == 1,
        decreases total - i,
    {
        let b = bytes[25 + i];
        if b > 1 {
            proof {
                assert(bytes@[25 + i as int] > 1);
            }
            return None;
        }
        cells.push(Cellule::with_alive(b == 1));
        i = i + 1;
    }
    let sim = Simulation::from_parts(state, ticks64 as usize, cells, w, h);
    proof {
        lemma_u64_le_of_from(bytes@.subrange(1, 9));
        lemma_u64_le_of_from(bytes@.subrange(9, 17));
        lemma_u64_le_of_from(bytes@.subrange(17, 25));
        assert(cell_bytes(sim.grid()) =~= bytes@.subrange(25, bytes@.len() as int)) by {
            assert forall|k: int| 0 <= k < sim.grid().len() implies cell_byte(sim.grid()[k])
                == bytes@[25 + k] by {}
        }
        assert(snapshot_bytes(sim) =~= bytes@);
        assert(valid_snapshot_bytes(bytes@));
    }
    Some(sim)
}

/// Every well-formed snapshot's encoding is a valid encoding: the wire
/// format round-trips through `decode_snapshot`.
pub proof fn lemma_snapshot_bytes_valid(sim: Simulation)
    requires
        sim.wf(),
    ensures
        valid_snapshot_bytes(snapshot_bytes(sim)),
{
    let b = snapshot_bytes(sim);
    lemma_u64_round_trip(sim.spec_ticks() as u64);
    lemma_u64_round_trip(sim.spec_width() as u64);
    lemma_u64_round_trip(sim.spec_height() as u64);
    assert(b.subrange(1, 9) =~= u64_le(sim.spec_ticks() as u64));
    assert(b.subrange(9, 17) =~= u64_le(sim.spec_width() as u64));
    assert(b.subrange(17, 25) =~= u64_le(sim.spec_height() as u64));
    assert(state_tag(sim.spec_state()) <= 3);
    assert((sim.spec_ticks() as u64) as int == sim.spec_ticks());
    assert((sim.spec_width() as u64) as int == sim.spec_width());
    assert((sim.spec_height() as u64) as int == sim.spec_height());
    assert(b.len() == 25 + sim.grid().len());
    assert forall|i: int| 25 <= i < b.len() implies (#[trigger] b[i]) == 0 || b[i] == 1 by {
        assert(b[i] == cell_byte(sim.grid()[i - 25]));
    }
}

/// The encoding is injective: two well-formed snapshots with the same wire
/// bytes agree in every observable field.
pub proof fn lemma_snapshot_bytes_injective(a: Simulation, b: Simulation)
    requires
        a.wf(),
        b.wf(),
        snapshot_bytes(a) == snapshot_bytes(b),
    ensures
        a.spec_state() == b.spec_state(),
        a.spec_ticks() == b.spec_ticks(),
        a.spec_width() == b.spec_width(),
        a.spec_height() == b.spec_height(),
        a.grid() == b.grid(),
{
    let ba = snapshot_bytes(a);
    let bb = snapshot_bytes(b);
    lemma_u64_round_trip(a.spec_ticks() as u64);
    lemma_u64_round_trip(a.spec_width() as u64);
    lemma_u64_round_trip(a.spec_height() as u64);
    lemma_u64_round_trip(b.spec_ticks() as u64);
    lemma_u64_round_trip(b.spec_width() as u64);
    lemma_u64_round_trip(b.spec_height() as u64);
    assert(ba.subrange(1, 9) =~= u64_le(a.spec_ticks() as u64));
    assert(ba.subrange(9, 17) =~= u64_le(a.spec_width() as u64));
    assert(ba.subrange(17, 25) =~= u64_le(a.spec_height() as u64));
    assert(bb.subrange(1, 9) =~= u64_le(b.spec_ticks() as u64));
    assert(bb.subrange(9, 17) =~= u64_le(b.spec_width() as u64));
    assert(bb.subrange(17, 25) =~= u64_le(b.spec_height() as u64));
    assert(ba[0] == state_tag(a.spec_state()) && bb[0] == state_tag(b.spec_state()));
    assert((a.spec_ticks() as u64) as int == a.spec_ticks());
    assert((a.spec_width() as u64) as int == a.spec_width());
    assert((a.spec_height() as u64) as int == a.spec_height());
    assert((b.spec_ticks() as u64) as int == b.spec_ticks());
    assert((b.spec_width() as u64) as int == b.spec_width());
    assert((b.spec_height() as u64) as int == b.spec_height());
    assert forall|i: int| 0 <= i < a.grid().len() implies a.grid()[i] == b.grid()[i] by {
        assert(ba[25 + i] == cell_byte(a.grid()[i]));
        assert(bb[25 + i] == cell_byte(b.grid()[i]));
        lemma_cell_eq(a.grid()[i], b.grid()[i]);
    }
    assert(a.grid() =~= b.grid());
}

} // verus!
