//! The command-facing data model: the configuration structs the CLI fills
//! in, and the sync-id inspection command, whose byte-list parsing and
//! decoding are verified here. Transport, argument parsing and printing
//! stay outside the library.

use vstd::prelude::*;

use crate::sync_id::{
    all_digits, decode, digits_value, spec_decode, spec_decode_error, DecodeError, SyncId,
};
use crate::time_window::TimeArgs;

verus! {

/// Where one node's RPC endpoint lives.
pub struct BaseRpcConfig {
    pub http: bool,
    pub https: bool,
    pub port: u16,
    pub endpoint: String,
}

/// Endpoint settings of the source node of a diff.
pub struct SourceConfig {
    pub source_http: bool,
    pub source_https: bool,
    pub source_port: u16,
    pub source_endpoint: String,
}

/// Endpoint settings of the target node of a diff.
pub struct TargetConfig {
    pub target_http: bool,
    pub target_https: bool,
    pub target_port: u16,
    pub target_endpoint: String,
}

/// A full diff request: both endpoints, an optional record-type filter, and
/// the raw time-window specification.
pub struct DiffCommand {
    pub source: SourceConfig,
    pub target: TargetConfig,
    pub event_type: Option<String>,
    pub time_args: TimeArgs,
}

/// A request to fetch the records behind one identifier prefix.
pub struct MessagesCommand {
    pub base: BaseRpcConfig,
    pub sync_id: Option<String>,
}

/// A request to inspect one sync identifier, given as the raw bytes of its
/// textual form: decimal byte values separated by commas.
pub struct SyncIdCommand {
    pub sync_id: Vec<u8>,
}

/// The inspection subcommands.
pub enum SubCommands {
    SyncId(SyncIdCommand),
}

/// A parse request: an endpoint (unused by the verified part) and one
/// inspection subcommand.
pub struct ParseCommand {
    pub base: BaseRpcConfig,
    pub subcommand: SubCommands,
}

/// Why a textual byte list was rejected, or why the listed bytes were.
#[derive(PartialEq, Eq, Structural, Clone, Copy, Debug)]
pub enum SyncIdParseError {
    /// Some comma-separated part is not a decimal byte value.
    InvalidByteList,
    /// The listed bytes do not decode as a sync identifier.
    Decode(DecodeError),
}

/// The comma-separated parts of `s`: one part more than there are commas,
/// in order, commas not included.
pub open spec fn split_on_comma(s: Seq<u8>) -> Seq<Seq<u8>>
    decreases s.len(),
{
    if s.len() == 0 {
        seq![Seq::empty()]
    } else {
        let r = split_on_comma(s.drop_last());
        if s.last() == 44 {
            r.push(Seq::empty())
        } else {
            r.update(r.len() - 1, r.last().push(s.last()))
        }
    }
}

/// `p` with its leading spaces removed.
pub open spec fn trim_left(p: Seq<u8>) -> Seq<u8>
    decreases p.len(),
{
    if p.len() > 0 && p[0] == 32 {
        trim_left(p.drop_first())
    } else {
        p
    }
}

/// `p` with its trailing spaces removed.
pub open spec fn trim_right(p: Seq<u8>) -> Seq<u8>
    decreases p.len(),
{
    if p.len() > 0 && p.last() == 32 {
        trim_right(p.drop_last())
    } else {
        p
    }
}

/// `p` with leading and trailing spaces removed.
pub open spec fn trim_spaces(p: Seq<u8>) -> Seq<u8> {
    trim_right(trim_left(p))
}

/// What one comma-separated part denotes: its space-trimmed text read as a
/// decimal byte value, or nothing when the trimmed text is empty, holds a
/// non-digit, or exceeds one byte.
pub open spec fn spec_part_value(p: Seq<u8>) -> Option<u8> {
    let t = trim_spaces(p);
    if t.len() > 0 && all_digits(t) && digits_value(t) <= 255 {
        Some(digits_value(t) as u8)
    } else {
        None
    }
}

/// What a textual byte list denotes: the byte value of each comma-separated
/// part, in order, or nothing when any part is malformed.
pub open spec fn spec_parse_byte_list(s: Seq<u8>) -> Option<Seq<u8>> {
    let parts = split_on_comma(s);
    if forall|i: int| 0 <= i < parts.len() ==> (#[trigger] spec_part_value(parts[i])) is Some {
        Some(parts.map_values(|p: Seq<u8>| spec_part_value(p)->0))
    } else {
        None
    }
}

/// Once a digit prefix exceeds one byte, every longer digit string does too.
proof fn lemma_digits_value_prefix_gt(t: Seq<u8>, k: int)
    requires
        0 <= k <= t.len(),
        all_digits(t),
        digits_value(t.take(k)) > 255,
    ensures
        digits_value(t) > 255,
    decreases t.len() - k,
{
    if k < t.len() {
        assert(t.take(k + 1).drop_last() =~= t.take(k));
        assert(t.take(k + 1).last() == t[k]);
        lemma_digits_value_prefix_gt(t, k + 1);
    } else {
        assert(t.take(k) =~= t);
    }
}

/// The byte value one comma-separated part denotes, if any.
fn part_value(p: &Vec<u8>) -> (r: Option<u8>)
    ensures
        r == spec_part_value(p@),
{
    let mut lo: usize = 0;
    proof {
        assert(p@.skip(0) =~= p@);
    }
    while lo < p.len() && p[lo] == 32
        invariant
            0 <= lo <= p@.len(),
            trim_left(p@) == trim_left(p@.skip(lo as int)),
        decreases p@.len() - lo,
    {
        proof {
            assert(p@.skip(lo as int)[0] == p@[lo as int]);
            assert(p@.skip(lo as int).drop_first() =~= p@.skip(lo + 1));
        }
        lo = lo + 1;
    }
    let mut hi: usize = p.len();
    proof {
        if lo < p@.len() {
            assert(p@.skip(lo as int)[0] == p@[lo as int]);
            assert(trim_left(p@) == p@.skip(lo as int));
        } else {
            assert(p@.skip(lo as int) =~= Seq::<u8>::empty());
            assert(trim_left(p@) == p@.skip(lo as int));
        }
        assert(p@.skip(lo as int).take(
            (hi - lo) as int,
        ) =~= p@.skip(lo as int));
    }
    while hi > lo && p[hi - 1] == 32
        invariant
            lo <= hi <= p@.len(),
            trim_left(p@) == p@.skip(lo as int),
            trim_right(p@.skip(lo as int)) == trim_right(
                p@.skip(lo as int).take((hi - lo) as int),
            ),
        decreases hi,
    {
        proof {
            assert(p@.skip(lo as int).take((hi - lo) as int).drop_last() =~= p@.skip(
                lo as int,
            ).take((hi - 1 - lo) as int));
            assert(p@.skip(lo as int).take((hi - lo) as int).last() == p@[hi - 1]);
        }
        hi = hi - 1;
    }
    let ghost t = trim_spaces(p@);
    proof {
        if hi > lo {
            assert(p@.skip(lo as int).take((hi - lo) as int).last() == p@[hi - 1]);
            assert(trim_right(p@.skip(lo as int).take((hi - lo) as int)) == p@.skip(
                lo as int,
            ).take((hi - lo) as int));
        } else {
            assert(p@.skip(lo as int).take((hi - lo) as int) =~= Seq::<u8>::empty());
        }
        assert(t == p@.skip(lo as int).take((hi - lo) as int));
        assert(t =~= p@.subrange(lo as int, hi as int));
    }
    if hi == lo {
        return None;
    }
    let mut v: u32 = 0;
    let mut j: usize = lo;
    while j < hi
        invariant
            lo <= j <= hi <= p@.len(),
            t == trim_spaces(p@),
            t == p@.subrange(lo as int, hi as int),
            hi > lo,
            all_digits(t.take((j - lo) as int)),
            v == digits_value(t.take((j - lo) as int)),
            v <= 255,
        decreases hi - j,
    {
        let b = p[j];
        proof {
            assert(t[(j - lo) as int] == b);
        }
        if b < 48 || b > 57 {
            proof {
                assert(!crate::sync_id::is_digit(t[(j - lo) as int]));
                assert(!all_digits(t));
            }
            return None;
        }
        proof {
            assert(t.take((j + 1 - lo) as int).drop_last() =~= t.take((j - lo) as int));
            assert(t.take((j + 1 - lo) as int).last() == b);
        }
        v = v * 10 + ((b - 48) as u32);
        if v > 255 {
            proof {
                assert(digits_value(t.take(j + 1 - lo)) == v);
                if all_digits(t) {
                    lemma_digits_value_prefix_gt(t, j + 1 - lo);
                    assert(digits_value(t) > 255);
                }
                assert(spec_part_value(p@) is None);
            }
            return None;
        }
        j = j + 1;
    }
    proof {
        assert(t.take((hi - lo) as int) =~= t);
    }
    Some(v as u8)
}

/// Splits the raw text into its comma-separated parts.
fn split_parts(s: &Vec<u8>) -> (r: Vec<Vec<u8>>)
    ensures
        r.deep_view() == split_on_comma(s@),
{
    let mut parts: Vec<Vec<u8>> = Vec::new();
    let mut cur: Vec<u8> = Vec::new();
    let mut i: usize = 0;
    proof {
        assert(s@.take(0) =~= Seq::<u8>::empty());
        assert(parts.deep_view().push(cur@) =~~= split_on_comma(s@.take(0)));
    }
    while i < s.len()
        invariant
            0 <= i <= s@.len(),
            split_on_comma(s@.take(i as int)) == parts.deep_view().push(cur@),
        decreases s@.len() - i,
    {
        proof {
            assert(s@.take(i + 1).drop_last() =~= s@.take(i as int));
            assert(s@.take(i + 1).last() == s@[i as int]);
        }
        if s[i] == 44 {
            let ghost pre = parts.deep_view();
            parts.push(cur);
            cur = Vec::new();
            proof {
                assert(parts.deep_view() =~~= pre.push(split_on_comma(s@.take(i as int)).last()));
                assert(split_on_comma(s@.take(i + 1)) =~~= parts.deep_view().push(cur@));
            }
        } else {
            let ghost precur = cur@;
            cur.push(s[i]);
            proof {
                let r = split_on_comma(s@.take(i as int));
                assert(r.last() == precur);
                assert(split_on_comma(s@.take(i + 1)) =~~= r.update(
                    r.len() - 1,
                    precur.push(s@[i as int]),
                ));
                assert(r.update(r.len() - 1, precur.push(s@[i as int])) =~~= parts.deep_view().push(
                    cur@,
                ));
            }
        }
        i = i + 1;
    }
    let ghost pre = parts.deep_view();
    parts.push(cur);
    proof {
        assert(s@.take(s@.len() as int) =~= s@);
        assert(parts.deep_view() =~~= pre.push(cur@));
    }
    parts
}

/// Reads a textual byte list — decimal byte values separated by commas,
/// spaces around each value allowed — into the bytes it denotes. Returns
/// nothing exactly when some part is empty, holds a non-digit, or exceeds
/// one byte.
pub fn parse_byte_list(s: &Vec<u8>) -> (r: Option<Vec<u8>>)
    ensures
        match r {
            Some(bs) => spec_parse_byte_list(s@) == Some(bs@),
            None => spec_parse_byte_list(s@) is None,
        },
{
    let parts = split_parts(s);
    let ghost pv = parts.deep_view();
    let mut vals: Vec<u8> = Vec::new();
    let mut k: usize = 0;
    while k < parts.len()
        invariant
            0 <= k <= parts@.len(),
            pv == parts.deep_view(),
            pv.len() == parts@.len(),
            pv == split_on_comma(s@),
            vals@.len() == k,
            forall|j: int|
                0 <= j < k ==> (#[trigger] spec_part_value(pv[j])) is Some && vals@[j]
                    == spec_part_value(pv[j])->0,
        decreases parts@.len() - k,
    {
        proof {
            assert(pv[k as int] =~= parts@[k as int]@);
        }
        match part_value(&parts[k]) {
            Some(v) => {
                vals.push(v);
            },
            None => {
                return None;
            },
        }
        k = k + 1;
    }
    proof {
        assert(vals@ =~= pv.map_values(|p: Seq<u8>| spec_part_value(p)->0));
    }
    Some(vals)
}

/// Whether outcome `r` is right for the textual byte list `s`: the listed
/// bytes decoded as a sync identifier, or the exact error.
pub open spec fn parse_outcome_ok(r: Result<SyncId, SyncIdParseError>, s: Seq<u8>) -> bool {
    let parsed = spec_parse_byte_list(s);
    match r {
        Ok(id) => parsed is Some && spec_decode(parsed->0) == Some(id@),
        Err(SyncIdParseError::InvalidByteList) => parsed is None,
        Err(SyncIdParseError::Decode(e)) => parsed is Some && spec_decode(parsed->0) is None && e
            == spec_decode_error(parsed->0),
    }
}

/// The raw text a parse request carries.
pub open spec fn command_bytes(p: ParseCommand) -> Seq<u8> {
    match p.subcommand {
        SubCommands::SyncId(c) => c.sync_id@,
    }
}

impl SyncIdCommand {
    /// Reads the textual byte list and decodes the identifier it denotes.
    pub fn execute(&self) -> (r: Result<SyncId, SyncIdParseError>)
        ensures
            parse_outcome_ok(r, self.sync_id@),
    {
        let bytes = match parse_byte_list(&self.sync_id) {
            Some(bs) => bs,
            None => {
                return Err(SyncIdParseError::InvalidByteList);
            },
        };
        match decode(&bytes) {
            Ok(id) => Ok(id),
            Err(e) => Err(SyncIdParseError::Decode(e)),
        }
    }
}

impl ParseCommand {
    /// Runs the inspection subcommand and hands back what it decoded.
    pub fn execute(&self) -> (r: Result<SyncId, SyncIdParseError>)
        ensures
            parse_outcome_ok(r, command_bytes(*self)),
    {
        match &self.subcommand {
            SubCommands::SyncId(c) => c.execute(),
        }
    }
}

} // verus!
