//! Commands of the wire protocol between the coordinator and a worker, and
//! the codec that frames batches of them on a byte stream.
//!
//! The encoding is variant-tagged and self-terminating: a batch is a 64-bit
//! little-endian command count (at least one) followed by the commands, each a
//! one-byte tag followed by its fields — integers in 64-bit little-endian
//! form, booleans as one byte, strings as a 64-bit byte length followed by
//! their UTF-8 bytes. A reader needs no external schema and no length prefix
//! to find the end of a batch.

use vstd::prelude::*;
use vstd::utf8::decode_utf8;
use vstd::utf8::encode_utf8;
use vstd::utf8::valid_utf8;
use vstd::string::StrSliceExecFns;

verus! {

/// One command of the harness protocol. A batch is a non-empty ordered
/// sequence of these, transmitted as one atomic unit.
#[derive(Clone, Debug, PartialEq, Eq)]
pub enum Command {
    /// Terminate the receiving process. `delay` of zero with `random` false
    /// means terminate synchronously, before acknowledging anything later.
    Crash { delay: u64, random: bool },
    /// Establish or attach the named persistent heap.
    Init { id: String, size: u64 },
    /// Allocate `size` bytes under the next logical index.
    Malloc { size: usize },
    /// Release the allocation that was assigned logical index `index`.
    Free { index: usize },
    /// Rebuild the allocator's in-memory structures from persisted metadata.
    Recover,
    /// Terminate cleanly with exit code zero.
    Exit,
}

/// A malformed or truncated frame: the bytes at hand do not begin with the
/// encoding of any batch.
#[derive(Clone, Copy, Debug, PartialEq, Eq, Structural)]
pub struct ProtocolError;

/// The mathematical value of a command: a command with its heap id taken as
/// the sequence of its characters, so that a decoded command can be compared
/// with the command that was encoded.
pub enum CommandModel {
    Crash { delay: u64, random: bool },
    Init { id: Seq<char>, size: u64 },
    Malloc { size: usize },
    Free { index: usize },
    Recover,
    Exit,
}

/// The mathematical value of a command.
pub open spec fn cmd_model(c: Command) -> CommandModel {
    match c {
        Command::Crash { delay, random } => CommandModel::Crash { delay, random },
        Command::Init { id, size } => CommandModel::Init { id: id@, size },
        Command::Malloc { size } => CommandModel::Malloc { size },
        Command::Free { index } => CommandModel::Free { index },
        Command::Recover => CommandModel::Recover,
        Command::Exit => CommandModel::Exit,
    }
}

/// The mathematical value of a batch.
pub open spec fn batch_model(b: Seq<Command>) -> Seq<CommandModel> {
    b.map_values(|c: Command| cmd_model(c))
}

/// An encodable command: its heap id's UTF-8 form fits the 64-bit length
/// field. Every command held in memory satisfies this.
pub open spec fn cmd_wf(c: CommandModel) -> bool {
    match c {
        CommandModel::Init { id, size: _ } => encode_utf8(id).len() <= u64::MAX,
        _ => true,
    }
}

/// The wire tag of `Crash`.
pub const TAG_CRASH: u8 = 0;

/// The wire tag of `Init`.
pub const TAG_INIT: u8 = 1;

/// The wire tag of `Malloc`.
pub const TAG_MALLOC: u8 = 2;

/// The wire tag of `Free`.
pub const TAG_FREE: u8 = 3;

/// The wire tag of `Recover`.
pub const TAG_RECOVER: u8 = 4;

/// The wire tag of `Exit`.
pub const TAG_EXIT: u8 = 5;

/// The eight little-endian bytes of a 64-bit value.
pub open spec fn enc_u64(x: u64) -> Seq<u8> {
    seq![
        (x & 0xff) as u8,
        ((x >> 8) & 0xff) as u8,
        ((x >> 16) & 0xff) as u8,
        ((x >> 24) & 0xff) as u8,
        ((x >> 32) & 0xff) as u8,
        ((x >> 40) & 0xff) as u8,
        ((x >> 48) & 0xff) as u8,
        ((x >> 56) & 0xff) as u8,
    ]
}

/// The 64-bit value of eight little-endian bytes at `pos`.
pub open spec fn dec_u64(b: Seq<u8>, pos: int) -> u64 {
    (b[pos] as u64) | ((b[pos + 1] as u64) << 8) | ((b[pos + 2] as u64) << 16) | ((b[pos + 3]
        as u64) << 24) | ((b[pos + 4] as u64) << 32) | ((b[pos + 5] as u64) << 40) | ((b[pos + 6]
        as u64) << 48) | ((b[pos + 7] as u64) << 56)
}

/// The encoding of one command.
pub open spec fn enc_cmd(c: CommandModel) -> Seq<u8> {
    match c {
        CommandModel::Crash { delay, random } => seq![TAG_CRASH] + enc_u64(delay) + seq![
            if random {
                1u8
            } else {
                0u8
            },
        ],
        CommandModel::Init { id, size } => seq![TAG_INIT] + enc_u64(
            encode_utf8(id).len() as u64,
        ) + encode_utf8(id) + enc_u64(size),
        CommandModel::Malloc { size } => seq![TAG_MALLOC] + enc_u64(size as u64),
        CommandModel::Free { index } => seq![TAG_FREE] + enc_u64(index as u64),
        CommandModel::Recover => seq![TAG_RECOVER],
        CommandModel::Exit => seq![TAG_EXIT],
    }
}

/// The encoding of a sequence of commands, in order.
pub open spec fn enc_cmds(cs: Seq<CommandModel>) -> Seq<u8>
    decreases cs.len(),
{
    if cs.len() == 0 {
        Seq::empty()
    } else {
        enc_cmd(cs.first()) + enc_cmds(cs.drop_first())
    }
}

/// The encoding of a whole batch: the command count, then the commands.
pub open spec fn enc_batch(cs: Seq<CommandModel>) -> Seq<u8> {
    enc_u64(cs.len() as u64) + enc_cmds(cs)
}

/// The decoder of one command at `pos`: the command and the position after
/// it, or nothing if no command's encoding starts there.
pub open spec fn dec_cmd(b: Seq<u8>, pos: int) -> Option<(CommandModel, int)> {
    if pos < 0 || pos >= b.len() {
        None
    } else {
        let tag = b[pos];
        if tag == TAG_CRASH {
            if pos + 10 <= b.len() {
                let flag = b[pos + 9];
                if flag == 0 || flag == 1 {
                    Some(
                        (
                            (CommandModel::Crash { delay: dec_u64(b, pos + 1), random: flag == 1 }),
                            pos + 10,
                        ),
                    )
                } else {
                    None
                }
            } else {
                None
            }
        } else if tag == TAG_INIT {
            if pos + 9 <= b.len() {
                let n = dec_u64(b, pos + 1) as int;
                if pos + 17 + n <= b.len() {
                    let seg = b.subrange(pos + 9, pos + 9 + n);
                    if valid_utf8(seg) {
                        Some(
                            (
                                (CommandModel::Init {
                                    id: decode_utf8(seg),
                                    size: dec_u64(b, pos + 9 + n),
                                }),
                                pos + 17 + n,
                            ),
                        )
                    } else {
                        None
                    }
                } else {
                    None
                }
            } else {
                None
            }
        } else if tag == TAG_MALLOC {
            if pos + 9 <= b.len() {
                let v = dec_u64(b, pos + 1);
                if v <= usize::MAX {
                    Some(((CommandModel::Malloc { size: v as usize }), pos + 9))
                } else {
                    None
                }
            } else {
                None
            }
        } else if tag == TAG_FREE {
            if pos + 9 <= b.len() {
                let v = dec_u64(b, pos + 1);
                if v <= usize::MAX {
                    Some(((CommandModel::Free { index: v as usize }), pos + 9))
                } else {
                    None
                }
            } else {
                None
            }
        } else if tag == TAG_RECOVER {
            Some((CommandModel::Recover, pos + 1))
        } else if tag == TAG_EXIT {
            Some((CommandModel::Exit, pos + 1))
        } else {
            None
        }
    }
}

/// The decoder of `n` consecutive commands starting at `pos`.
pub open spec fn dec_cmds(b: Seq<u8>, pos: int, n: nat) -> Option<(Seq<CommandModel>, int)>
    decreases n,
{
    if n == 0 {
        Some((Seq::empty(), pos))
    } else {
        match dec_cmd(b, pos) {
            None => None,
            Some(first) => match dec_cmds(b, first.1, (n - 1) as nat) {
                None => None,
                Some(rest) => Some((seq![first.0] + rest.0, rest.1)),
            },
        }
    }
}

/// The decoder of a batch at the start of the bytes: the commands and the
/// number of bytes consumed, or nothing if the bytes do not begin with the
/// encoding of a non-empty batch.
pub open spec fn dec_batch(b: Seq<u8>) -> Option<(Seq<CommandModel>, int)> {
    if b.len() >= 8 {
        let n = dec_u64(b, 0);
        if n >= 1 {
            dec_cmds(b, 8, n as nat)
        } else {
            None
        }
    } else {
        None
    }
}

/// Eight little-endian bytes read back give the value they were made from.
pub proof fn lemma_u64_round_trip(x: u64, b: Seq<u8>, pos: int)
    requires
        0 <= pos,
        pos + 8 <= b.len(),
        b.subrange(pos, pos + 8) == enc_u64(x),
    ensures
        dec_u64(b, pos) == x,
{
    let e = enc_u64(x);
    assert forall|i: int| 0 <= i < 8 implies b[pos + i] == e[i] by {
        assert(b.subrange(pos, pos + 8)[i] == b[pos + i]);
    }
    assert((((x & 0xff) as u8) as u64) | ((((x >> 8) & 0xff) as u8) as u64) << 8 | ((((x >> 16)
        & 0xff) as u8) as u64) << 16 | ((((x >> 24) & 0xff) as u8) as u64) << 24 | ((((x >> 32)
        & 0xff) as u8) as u64) << 32 | ((((x >> 40) & 0xff) as u8) as u64) << 40 | ((((x >> 48)
        & 0xff) as u8) as u64) << 48 | ((((x >> 56) & 0xff) as u8) as u64) << 56 == x)
        by (bit_vector);
}

/// A window into a sequence that matches `e` at `pos` matches `e`'s
/// corresponding window.
proof fn lemma_matching_window(b: Seq<u8>, e: Seq<u8>, pos: int, lo: int, hi: int)
    requires
        0 <= pos,
        pos + e.len() <= b.len(),
        b.subrange(pos, pos + e.len()) == e,
        0 <= lo <= hi <= e.len(),
    ensures
        b.subrange(pos + lo, pos + hi) == e.subrange(lo, hi),
{
    assert forall|j: int| 0 <= j < hi - lo implies b.subrange(pos + lo, pos + hi)[j] == e.subrange(
        lo,
        hi,
    )[j] by {
        assert(b.subrange(pos, pos + e.len() as int)[lo + j] == e[lo + j]);
    }
    assert(b.subrange(pos + lo, pos + hi) =~= e.subrange(lo, hi));
}

/// One encoded command, read back from wherever it stands, gives the command
/// it was made from and ends exactly where its encoding ends.
pub proof fn lemma_cmd_round_trip(c: CommandModel, b: Seq<u8>, pos: int)
    requires
        cmd_wf(c),
        0 <= pos,
        pos + enc_cmd(c).len() <= b.len(),
        b.subrange(pos, pos + enc_cmd(c).len()) == enc_cmd(c),
    ensures
        dec_cmd(b, pos) == Some((c, pos + enc_cmd(c).len())),
{
    broadcast use vstd::utf8::encode_utf8_valid_utf8;
    broadcast use vstd::utf8::encode_utf8_decode_utf8;

    let e = enc_cmd(c);
    assert(b.subrange(pos, pos + e.len() as int)[0] == e[0]);
    match c {
        CommandModel::Crash { delay, random } => {
            assert(e.len() == 10);
            lemma_matching_window(b, e, pos, 1, 9);
            assert(e.subrange(1, 9) =~= enc_u64(delay));
            lemma_u64_round_trip(delay, b, pos + 1);
            assert(b.subrange(pos, pos + e.len() as int)[9] == e[9]);
        },
        CommandModel::Init { id, size } => {
            let bytes = encode_utf8(id);
            let n = bytes.len() as int;
            assert(e.len() == 17 + n);
            lemma_matching_window(b, e, pos, 1, 9);
            assert(e.subrange(1, 9) =~= enc_u64(bytes.len() as u64));
            lemma_u64_round_trip(bytes.len() as u64, b, pos + 1);
            assert(dec_u64(b, pos + 1) as int == n);
            lemma_matching_window(b, e, pos, 9, 9 + n);
            assert(e.subrange(9, 9 + n) =~= bytes);
            assert(valid_utf8(bytes));
            assert(decode_utf8(bytes) == id);
            lemma_matching_window(b, e, pos, 9 + n, 17 + n);
            assert(e.subrange(9 + n, 17 + n) =~= enc_u64(size));
            lemma_u64_round_trip(size, b, pos + 9 + n);
        },
        CommandModel::Malloc { size } => {
            assert(e.len() == 9);
            lemma_matching_window(b, e, pos, 1, 9);
            assert(e.subrange(1, 9) =~= enc_u64(size as u64));
            lemma_u64_round_trip(size as u64, b, pos + 1);
        },
        CommandModel::Free { index } => {
            assert(e.len() == 9);
            lemma_matching_window(b, e, pos, 1, 9);
            assert(e.subrange(1, 9) =~= enc_u64(index as u64));
            lemma_u64_round_trip(index as u64, b, pos + 1);
        },
        CommandModel::Recover => {},
        CommandModel::Exit => {},
    }
}

/// The encoding of a concatenation is the concatenation of the encodings.
pub proof fn lemma_enc_cmds_concat(s1: Seq<CommandModel>, s2: Seq<CommandModel>)
    ensures
        enc_cmds(s1 + s2) == enc_cmds(s1) + enc_cmds(s2),
    decreases s1.len(),
{
    if s1.len() == 0 {
        assert(s1 + s2 =~= s2);
        assert(enc_cmds(s1) + enc_cmds(s2) =~= enc_cmds(s2));
    } else {
        assert((s1 + s2).drop_first() =~= s1.drop_first() + s2);
        lemma_enc_cmds_concat(s1.drop_first(), s2);
        assert(enc_cmd((s1 + s2).first()) + (enc_cmds(s1.drop_first()) + enc_cmds(s2)) =~= (enc_cmd(
            s1.first(),
        ) + enc_cmds(s1.drop_first())) + enc_cmds(s2));
    }
}

/// A run of encoded commands, read back from wherever it stands, gives the
/// commands it was made from and ends exactly where their encoding ends.
pub proof fn lemma_cmds_round_trip(cs: Seq<CommandModel>, b: Seq<u8>, pos: int)
    requires
        forall|i: int| 0 <= i < cs.len() ==> cmd_wf(#[trigger] cs[i]),
        0 <= pos,
        pos + enc_cmds(cs).len() <= b.len(),
        b.subrange(pos, pos + enc_cmds(cs).len()) == enc_cmds(cs),
    ensures
        dec_cmds(b, pos, cs.len()) == Some((cs, pos + enc_cmds(cs).len())),
    decreases cs.len(),
{
    if cs.len() == 0 {
        assert(dec_cmds(b, pos, 0) == Some((Seq::<CommandModel>::empty(), pos)));
        assert(cs =~= Seq::<CommandModel>::empty());
    } else {
        let first = cs.first();
        let rest = cs.drop_first();
        let e = enc_cmds(cs);
        let e1 = enc_cmd(first);
        let erest = enc_cmds(rest);
        assert(e == e1 + erest);
        lemma_matching_window(b, e, pos, 0, e1.len() as int);
        assert(e.subrange(0, e1.len() as int) =~= e1);
        assert(b.subrange(pos + 0, pos + e1.len() as int) =~= b.subrange(
            pos,
            pos + e1.len() as int,
        ));
        lemma_cmd_round_trip(first, b, pos);
        let q = pos + e1.len() as int;
        lemma_matching_window(b, e, pos, e1.len() as int, e.len() as int);
        assert(e.subrange(e1.len() as int, e.len() as int) =~= erest);
        assert(b.subrange(pos + e1.len() as int, pos + e.len() as int) =~= b.subrange(
            q,
            q + erest.len() as int,
        ));
        assert(forall|i: int| 0 <= i < rest.len() ==> cmd_wf(#[trigger] rest[i]));
        lemma_cmds_round_trip(rest, b, q);
        assert(seq![first] + rest =~= cs);
    }
}

/// Round-trip: the encoding of any non-empty batch, with anything at all
/// appended after it, decodes to exactly the batch that was encoded and
/// consumes exactly the encoding — so batches can be framed back to back on
/// one stream.
pub proof fn lemma_round_trip(cs: Seq<CommandModel>, rest: Seq<u8>)
    requires
        1 <= cs.len() <= u64::MAX,
        forall|i: int| 0 <= i < cs.len() ==> cmd_wf(#[trigger] cs[i]),
    ensures
        dec_batch(enc_batch(cs) + rest) == Some((cs, enc_batch(cs).len() as int)),
{
    let b = enc_batch(cs) + rest;
    assert(b.subrange(0, 8) =~= enc_u64(cs.len() as u64));
    lemma_u64_round_trip(cs.len() as u64, b, 0);
    assert(dec_u64(b, 0) == cs.len() as u64);
    assert(b.subrange(8, 8 + enc_cmds(cs).len() as int) =~= enc_cmds(cs));
    lemma_cmds_round_trip(cs, b, 8);
    assert((cs.len() as u64) as nat == cs.len());
}

/// Append the eight little-endian bytes of `x`.
fn push_u64(out: &mut Vec<u8>, x: u64)
    ensures
        final(out)@ == old(out)@ + enc_u64(x),
{
    out.push(#[verifier::truncate] ((x & 0xff) as u8));
    out.push(#[verifier::truncate] (((x >> 8) & 0xff) as u8));
    out.push(#[verifier::truncate] (((x >> 16) & 0xff) as u8));
    out.push(#[verifier::truncate] (((x >> 24) & 0xff) as u8));
    out.push(#[verifier::truncate] (((x >> 32) & 0xff) as u8));
    out.push(#[verifier::truncate] (((x >> 40) & 0xff) as u8));
    out.push(#[verifier::truncate] (((x >> 48) & 0xff) as u8));
    out.push(#[verifier::truncate] (((x >> 56) & 0xff) as u8));
    proof {
        assert(out@ =~= old(out)@ + enc_u64(x));
    }
}

/// Read back the eight little-endian bytes at `pos`.
fn read_u64(bytes: &Vec<u8>, pos: usize) -> (x: u64)
    requires
        pos + 8 <= bytes@.len(),
    ensures
        x == dec_u64(bytes@, pos as int),
{
    let len = bytes.len();
    assert(pos + 8 <= len);
    (bytes[pos] as u64) | ((bytes[pos + 1] as u64) << 8) | ((bytes[pos + 2] as u64) << 16) | ((
    bytes[pos + 3] as u64) << 24) | ((bytes[pos + 4] as u64) << 32) | ((bytes[pos + 5] as u64)
        << 40) | ((bytes[pos + 6] as u64) << 48) | ((bytes[pos + 7] as u64) << 56)
}

/// Append the encoding of one command.
fn encode_cmd(out: &mut Vec<u8>, c: &Command)
    ensures
        final(out)@ == old(out)@ + enc_cmd(cmd_model(*c)),
        cmd_wf(cmd_model(*c)),
{
    match c {
        Command::Crash { delay, random } => {
            out.push(TAG_CRASH);
            push_u64(out, *delay);
            out.push(if *random { 1 } else { 0 });
            proof {
                assert(out@ =~= old(out)@ + enc_cmd(cmd_model(*c)));
            }
        },
        Command::Init { id, size } => {
            out.push(TAG_INIT);
            let mut utf8 = id.as_str().as_bytes_vec();
            push_u64(out, utf8.len() as u64);
            let ghost bs = utf8@;
            out.append(&mut utf8);
            push_u64(out, *size);
            proof {
                assert(bs == encode_utf8(id@));
                assert(out@ =~= old(out)@ + enc_cmd(cmd_model(*c)));
            }
        },
        Command::Malloc { size } => {
            out.push(TAG_MALLOC);
            push_u64(out, *size as u64);
            proof {
                assert(out@ =~= old(out)@ + enc_cmd(cmd_model(*c)));
            }
        },
        Command::Free { index } => {
            out.push(TAG_FREE);
            push_u64(out, *index as u64);
            proof {
                assert(out@ =~= old(out)@ + enc_cmd(cmd_model(*c)));
            }
        },
        Command::Recover => {
            out.push(TAG_RECOVER);
            proof {
                assert(out@ =~= old(out)@ + enc_cmd(cmd_model(*c)));
            }
        },
        Command::Exit => {
            out.push(TAG_EXIT);
            proof {
                assert(out@ =~= old(out)@ + enc_cmd(cmd_model(*c)));
            }
        },
    }
}

/// Encode a non-empty batch for the wire: the command count, then each
/// command in order. The result is exactly the batch's self-terminating
/// encoding, so decoding it — with anything after it — gives the batch back.
pub fn encode_batch(batch: &Vec<Command>) -> (out: Vec<u8>)
    requires
        batch@.len() >= 1,
    ensures
        out@ == enc_batch(batch_model(batch@)),
        forall|i: int| 0 <= i < batch@.len() ==> cmd_wf(#[trigger] batch_model(batch@)[i]),
{
    let ghost models = batch_model(batch@);
    let n = batch.len();
    let mut out: Vec<u8> = Vec::new();
    push_u64(&mut out, n as u64);
    let mut i: usize = 0;
    while i < n
        invariant
            i <= n,
            n == batch@.len(),
            models == batch_model(batch@),
            out@ == enc_u64(n as u64) + enc_cmds(models.take(i as int)),
            forall|j: int| 0 <= j < i ==> cmd_wf(#[trigger] models[j]),
        decreases n - i,
    {
        encode_cmd(&mut out, &batch[i]);
        proof {
            assert(models.take(i + 1) =~= models.take(i as int) + seq![models[i as int]]);
            lemma_enc_cmds_concat(models.take(i as int), seq![models[i as int]]);
            assert(seq![models[i as int]].drop_first() =~= Seq::<CommandModel>::empty());
            assert(enc_cmds(seq![models[i as int]]) =~= enc_cmd(models[i as int]) + enc_cmds(
                Seq::<CommandModel>::empty(),
            ));
            assert(enc_cmds(seq![models[i as int]]) =~= enc_cmd(models[i as int]));
            assert(out@ =~= enc_u64(n as u64) + enc_cmds(models.take(i + 1)));
        }
        i += 1;
    }
    proof {
        assert(models.take(n as int) =~= models);
    }
    out
}

/// Relies on alloc's String::from_utf8: it returns a string over exactly the
/// given bytes when they are valid UTF-8 — vstd's `decode_utf8` names that
/// string's characters — and errs if and only if they are not.
#[verifier::external_body]
fn string_from_utf8(v: Vec<u8>) -> (r: Option<String>)
    ensures
        r matches Some(s) ==> s@ == decode_utf8(v@) && encode_utf8(s@) == v@,
        r is Some <==> valid_utf8(v@),
{
    match String::from_utf8(v) {
        Ok(s) => Some(s),
        Err(_) => None,
    }
}

/// The bytes of the window `[start, end)`.
fn copy_range(bytes: &Vec<u8>, start: usize, end: usize) -> (v: Vec<u8>)
    requires
        start <= end <= bytes@.len(),
    ensures
        v@ == bytes@.subrange(start as int, end as int),
{
    let mut v: Vec<u8> = Vec::new();
    let mut i: usize = start;
    while i < end
        invariant
            start <= i <= end <= bytes@.len(),
            v@ == bytes@.subrange(start as int, i as int),
        decreases end - i,
    {
        v.push(bytes[i]);
        proof {
            assert(v@ =~= bytes@.subrange(start as int, i + 1));
        }
        i += 1;
    }
    v
}

/// Decode the command at `pos`, returning it with the position after it. The
/// result is exactly what the mathematical decoder says: a command when one's
/// encoding starts at `pos`, an error otherwise.
fn decode_cmd(bytes: &Vec<u8>, pos: usize) -> (r: Result<(Command, usize), ProtocolError>)
    ensures
        match r {
            Ok(p) => {
                &&& dec_cmd(bytes@, pos as int) == Some((cmd_model(p.0), p.1 as int))
                &&& pos < p.1 <= bytes@.len()
            },
            Err(_) => dec_cmd(bytes@, pos as int) is None,
        },
{
    let len = bytes.len();
    if pos >= len {
        return Err(ProtocolError);
    }
    let tag = bytes[pos];
    if tag == TAG_CRASH {
        if len - pos >= 10 {
            let flag = bytes[pos + 9];
            if flag == 0 || flag == 1 {
                let delay = read_u64(bytes, pos + 1);
                Ok((Command::Crash { delay, random: flag == 1 }, pos + 10))
            } else {
                Err(ProtocolError)
            }
        } else {
            Err(ProtocolError)
        }
    } else if tag == TAG_INIT {
        if len - pos < 9 {
            return Err(ProtocolError);
        }
        let n = read_u64(bytes, pos + 1);
        if n > (len - (pos + 9)) as u64 || (len - (pos + 9)) as u64 - n < 8 {
            return Err(ProtocolError);
        }
        let nb = n as usize;
        let seg = copy_range(bytes, pos + 9, pos + 9 + nb);
        match string_from_utf8(seg) {
            Some(id) => {
                let size = read_u64(bytes, pos + 9 + nb);
                Ok((Command::Init { id, size }, pos + 17 + nb))
            },
            None => Err(ProtocolError),
        }
    } else if tag == TAG_MALLOC {
        if len - pos >= 9 {
            let v = read_u64(bytes, pos + 1);
            if v <= usize::MAX as u64 {
                Ok((Command::Malloc { size: v as usize }, pos + 9))
            } else {
                Err(ProtocolError)
            }
        } else {
            Err(ProtocolError)
        }
    } else if tag == TAG_FREE {
        if len - pos >= 9 {
            let v = read_u64(bytes, pos + 1);
            if v <= usize::MAX as u64 {
                Ok((Command::Free { index: v as usize }, pos + 9))
            } else {
                Err(ProtocolError)
            }
        } else {
            Err(ProtocolError)
        }
    } else if tag == TAG_RECOVER {
        Ok((Command::Recover, pos + 1))
    } else if tag == TAG_EXIT {
        Ok((Command::Exit, pos + 1))
    } else {
        Err(ProtocolError)
    }
}

/// Decoding `k + m` commands is decoding `k`, then `m` more from where the
/// first `k` ended.
proof fn lemma_dec_cmds_split(b: Seq<u8>, pos: int, k: nat, m: nat, s1: Seq<CommandModel>, q: int)
    requires
        dec_cmds(b, pos, k) == Some((s1, q)),
    ensures
        dec_cmds(b, pos, k + m) == (match dec_cmds(b, q, m) {
            Some(r) => Some((s1 + r.0, r.1)),
            None => None::<(Seq<CommandModel>, int)>,
        }),
    decreases k,
{
    if k == 0 {
        assert(s1 =~= Seq::<CommandModel>::empty());
        assert(q == pos);
        match dec_cmds(b, q, m) {
            Some(r) => {
                assert(s1 + r.0 =~= r.0);
            },
            None => {},
        }
    } else {
        let first = dec_cmd(b, pos).unwrap();
        let rest = dec_cmds(b, first.1, (k - 1) as nat).unwrap();
        assert(s1 == seq![first.0] + rest.0);
        lemma_dec_cmds_split(b, first.1, (k - 1) as nat, m, rest.0, q);
        assert((k + m - 1) as nat == (k - 1) as nat + m);
        match dec_cmds(b, q, m) {
            Some(r) => {
                assert((seq![first.0] + rest.0) + r.0 =~= seq![first.0] + (rest.0 + r.0));
            },
            None => {},
        }
    }
}

/// Decode one whole batch from the start of the bytes, returning it with the
/// number of bytes consumed. Succeeds if and only if the bytes begin with the
/// encoding of a non-empty batch — a truncated or malformed frame is a
/// `ProtocolError` — and then returns exactly the batch that was encoded.
pub fn decode_batch(bytes: &Vec<u8>) -> (r: Result<(Vec<Command>, usize), ProtocolError>)
    ensures
        match r {
            Ok(p) => {
                &&& dec_batch(bytes@) == Some((batch_model(p.0@), p.1 as int))
                &&& p.0@.len() >= 1
                &&& p.1 <= bytes@.len()
            },
            Err(_) => dec_batch(bytes@) is None,
        },
{
    let len = bytes.len();
    if len < 8 {
        return Err(ProtocolError);
    }
    let n = read_u64(bytes, 0);
    if n < 1 {
        return Err(ProtocolError);
    }
    let mut out: Vec<Command> = Vec::new();
    let mut pos: usize = 8;
    let mut k: u64 = 0;
    while k < n
        invariant
            k <= n,
            8 <= pos <= bytes@.len(),
            bytes@.len() >= 8,
            n == dec_u64(bytes@, 0),
            n >= 1,
            out@.len() == k,
            dec_cmds(bytes@, 8, k as nat) == Some((batch_model(out@), pos as int)),
        decreases n - k,
    {
        match decode_cmd(bytes, pos) {
            Ok((c, next)) => {
                proof {
                    lemma_dec_cmds_split(bytes@, 8, k as nat, 1, batch_model(out@), pos as int);
                    assert(seq![cmd_model(c)] + Seq::<CommandModel>::empty() =~= seq![
                        cmd_model(c),
                    ]);
                    assert(dec_cmds(bytes@, next as int, 0) == Some(
                        (Seq::<CommandModel>::empty(), next as int),
                    ));
                    assert(dec_cmds(bytes@, pos as int, 1) == Some(
                        (seq![cmd_model(c)], next as int),
                    ));
                    assert(batch_model(out@.push(c)) =~= batch_model(out@) + seq![cmd_model(c)]);
                }
                out.push(c);
                pos = next;
            },
            Err(e) => {
                proof {
                    lemma_dec_cmds_split(
                        bytes@,
                        8,
                        k as nat,
                        (n - k) as nat,
                        batch_model(out@),
                        pos as int,
                    );
                    assert(k as nat + (n - k) as nat == n as nat);
                    assert(dec_cmds(bytes@, pos as int, (n - k) as nat) is None);
                }
                return Err(e);
            },
        }
        k += 1;
    }
    Ok((out, pos))
}

} // verus!
