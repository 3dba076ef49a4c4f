//! Parsing of GCC-style Language-Specific Data Areas (LSDAs) and resolution
//! of the unwinding action for one frame.
//!
//! An LSDA consists of a small header (landing-pad base encoding, type-table
//! encoding, call-site encoding, call-site table length) followed by the
//! call-site table and the action records.  `find_eh_action` parses the header
//! and then runs one of two mutually exclusive lookup algorithms: a sorted
//! scan of the call-site table keyed by the instruction pointer, or an indexed
//! walk of `(landing-pad, action)` pairs where the instruction pointer is
//! itself a one-based index.
//!
//! The whole resolution is specified by the total function
//! [`spec_find_eh_action`]: `None` marks inputs outside the model (a
//! truncated buffer, an over-long LEB128 encoding, an indirect load outside
//! the buffer, or address arithmetic that leaves the address width), and
//! `Some` gives the exact result, success or error, that the executable
//! resolver returns.

use vstd::prelude::*;

use crate::dwarf::le_u16_at;
use crate::dwarf::le_u32_at;
use crate::dwarf::le_u64_at;
use crate::dwarf::sleb_end;
use crate::dwarf::sleb_ok;
use crate::dwarf::sleb_val;
use crate::dwarf::uleb_end;
use crate::dwarf::uleb_ok;
use crate::dwarf::uleb_val;
use crate::dwarf::DwarfReader;

verus! {

pub const DW_EH_PE_omit: u8 = 0xFF;

pub const DW_EH_PE_absptr: u8 = 0x00;

pub const DW_EH_PE_uleb128: u8 = 0x01;

pub const DW_EH_PE_udata2: u8 = 0x02;

pub const DW_EH_PE_udata4: u8 = 0x03;

pub const DW_EH_PE_udata8: u8 = 0x04;

pub const DW_EH_PE_sleb128: u8 = 0x09;

pub const DW_EH_PE_sdata2: u8 = 0x0A;

pub const DW_EH_PE_sdata4: u8 = 0x0B;

pub const DW_EH_PE_sdata8: u8 = 0x0C;

pub const DW_EH_PE_pcrel: u8 = 0x10;

pub const DW_EH_PE_textrel: u8 = 0x20;

pub const DW_EH_PE_datarel: u8 = 0x30;

pub const DW_EH_PE_funcrel: u8 = 0x40;

pub const DW_EH_PE_aligned: u8 = 0x50;

pub const DW_EH_PE_indirect: u8 = 0x80;

/// What the frame's caller supplies for one resolution: the suspended
/// instruction pointer, the start address of the function it lies in (zero
/// when unknown), and the base addresses of the text and data sections.
#[derive(Copy, Clone, Debug)]
pub struct EHContext {
    pub ip: u64,
    pub func_start: u64,
    pub text_start: u64,
    pub data_start: u64,
}

/// The resolved disposition of one frame.
#[derive(Copy, Clone, Debug, PartialEq, Eq)]
pub enum EHAction {
    NoAction,
    Cleanup(u64),
    Catch(u64),
    Terminate,
}

/// Terminal decoding failures; the stack walker treats each like `Terminate`.
#[derive(Copy, Clone, Debug, PartialEq, Eq)]
pub enum DecodeError {
    /// A mandatory encoded value was marked absent.
    OmittedField,
    /// A function-relative encoding was requested with no function start.
    MissingFunctionBase,
    /// Unrecognized value-format or base-selector bits.
    UnsupportedEncoding,
}

/// Which of the two lookup algorithms the build uses; fixed per target, not
/// per call.
#[derive(Copy, Clone, Debug, PartialEq, Eq)]
pub enum LookupMode {
    /// Sorted scan of the call-site table keyed by the instruction pointer.
    Standard,
    /// Indexed walk where the instruction pointer is a one-based index.
    Alternate,
}

/// One record of the standard-mode call-site table, as decoded.
#[derive(Copy, Clone, Debug, PartialEq, Eq)]
pub struct CallSiteRecord {
    pub start: u64,
    pub len: u64,
    pub lpad: u64,
    pub action: u64,
}

impl CallSiteRecord {
    /// The instruction pointer falls in this record's half-open code range.
    pub open spec fn covers(self, func_start: u64, ip: u64) -> bool {
        func_start + self.start <= ip < func_start + self.start + self.len
    }
}

/// The low four bits of an encoding byte: the value format.
pub open spec fn enc_format(enc: u8) -> u8 {
    enc % 16
}

/// Bits four to six of an encoding byte: the base selector.
pub open spec fn enc_base(enc: u8) -> u8 {
    (((enc / 16) % 8) * 16) as u8
}

/// The top bit of an encoding byte: follow one pointer indirection.
pub open spec fn enc_indirect(enc: u8) -> bool {
    enc >= 0x80
}

/// Addition that wraps at the address width, as pointer arithmetic does.
pub open spec fn wrap_add(a: nat, b: nat) -> nat {
    if a + b < 0x1_0000_0000_0000_0000 {
        a + b
    } else {
        (a + b - 0x1_0000_0000_0000_0000) as nat
    }
}

/// A signed 64-bit value reinterpreted at the address width.
pub open spec fn as_address(v: int) -> nat {
    if v < 0 {
        (v + 0x1_0000_0000_0000_0000) as nat
    } else {
        v as nat
    }
}

/// A 16-bit value sign-extended to the address width.
pub open spec fn sext16(v: nat) -> nat {
    if v < 0x8000 {
        v
    } else {
        v + 0xFFFF_FFFF_FFFF_0000
    }
}

/// A 32-bit value sign-extended to the address width.
pub open spec fn sext32(v: nat) -> nat {
    if v < 0x8000_0000 {
        v
    } else {
        v + 0xFFFF_FFFF_0000_0000
    }
}

/// `addr` rounded up to the next multiple of `align` (`align >= 1`).
pub open spec fn spec_round_up(addr: int, align: int) -> int {
    if addr % align == 0 {
        addr
    } else {
        addr + align - addr % align
    }
}

/// `n` is a power of two.
pub open spec fn is_pow2(n: nat) -> bool
    decreases n,
{
    if n == 0 {
        false
    } else if n == 1 {
        true
    } else {
        n % 2 == 0 && is_pow2(n / 2)
    }
}

/// One value of format `fmt` read at `pos`, zero- or sign-extended to the
/// address width, with the position one past its last byte.  `None` when the
/// bytes run out of the buffer or a LEB128 encoding is over-long;
/// `Err(UnsupportedEncoding)` on unrecognized format bits.
#[verifier::opaque]
pub open spec fn spec_read_value(s: Seq<u8>, pos: int, fmt: u8) -> Option<
    Result<(u64, int), DecodeError>,
> {
    if !(0 <= pos <= s.len()) {
        None
    } else if fmt == DW_EH_PE_absptr {
        if pos + 8 <= s.len() {
            Some(Ok((le_u64_at(s, pos) as u64, pos + 8)))
        } else {
            None
        }
    } else if fmt == DW_EH_PE_uleb128 {
        if uleb_ok(s, pos) {
            Some(Ok((uleb_val(s, pos) as u64, uleb_end(s, pos))))
        } else {
            None
        }
    } else if fmt == DW_EH_PE_udata2 {
        if pos + 2 <= s.len() {
            Some(Ok((le_u16_at(s, pos) as u64, pos + 2)))
        } else {
            None
        }
    } else if fmt == DW_EH_PE_udata4 {
        if pos + 4 <= s.len() {
            Some(Ok((le_u32_at(s, pos) as u64, pos + 4)))
        } else {
            None
        }
    } else if fmt == DW_EH_PE_udata8 {
        if pos + 8 <= s.len() {
            Some(Ok((le_u64_at(s, pos) as u64, pos + 8)))
        } else {
            None
        }
    } else if fmt == DW_EH_PE_sleb128 {
        if sleb_ok(s, pos) {
            Some(Ok((as_address(sleb_val(s, pos)) as u64, sleb_end(s, pos))))
        } else {
            None
        }
    } else if fmt == DW_EH_PE_sdata2 {
        if pos + 2 <= s.len() {
            Some(Ok((sext16(le_u16_at(s, pos)) as u64, pos + 2)))
        } else {
            None
        }
    } else if fmt == DW_EH_PE_sdata4 {
        if pos + 4 <= s.len() {
            Some(Ok((sext32(le_u32_at(s, pos)) as u64, pos + 4)))
        } else {
            None
        }
    } else if fmt == DW_EH_PE_sdata8 {
        if pos + 8 <= s.len() {
            Some(Ok((le_u64_at(s, pos) as u64, pos + 8)))
        } else {
            None
        }
    } else {
        Some(Err(DecodeError::UnsupportedEncoding))
    }
}

/// The base added to a decoded value.  `after_addr` is the cursor's absolute
/// address immediately after the value was consumed (the reference point of
/// pc-relative encodings).
pub open spec fn spec_apply_base(value: u64, sel: u8, after_addr: int, ctx: EHContext) -> Result<
    u64,
    DecodeError,
> {
    if sel == DW_EH_PE_absptr {
        Ok(value)
    } else if sel == DW_EH_PE_pcrel {
        Ok(wrap_add(value as nat, after_addr as nat) as u64)
    } else if sel == DW_EH_PE_textrel {
        Ok(wrap_add(value as nat, ctx.text_start as nat) as u64)
    } else if sel == DW_EH_PE_datarel {
        Ok(wrap_add(value as nat, ctx.data_start as nat) as u64)
    } else if sel == DW_EH_PE_funcrel {
        if ctx.func_start == 0 {
            Err(DecodeError::MissingFunctionBase)
        } else {
            Ok(wrap_add(value as nat, ctx.func_start as nat) as u64)
        }
    } else {
        Err(DecodeError::UnsupportedEncoding)
    }
}

/// The one extra address-width load an indirect encoding performs, resolved
/// inside the buffer; `None` when the computed address lies outside it.
pub open spec fn spec_indirect_load(s: Seq<u8>, base: u64, value: u64) -> Option<u64> {
    if base <= value && value - base + 8 <= s.len() {
        Some(le_u64_at(s, value - base) as u64)
    } else {
        None
    }
}

/// One encoded pointer read at `pos`, with the position one past its last
/// byte: the value format decodes the raw value, the base selector relocates
/// it, and the indirect bit follows one pointer indirection.  An `aligned`
/// base selector first rounds the cursor's absolute address up to the next
/// address-width boundary, then reads one verbatim address-width value with
/// no base added.
#[verifier::opaque]
pub open spec fn spec_read_encoded(s: Seq<u8>, base: u64, pos: int, ctx: EHContext, enc: u8) -> Option<
    Result<(u64, int), DecodeError>,
> {
    if enc == DW_EH_PE_omit {
        Some(Err(DecodeError::OmittedField))
    } else if enc_base(enc) == DW_EH_PE_aligned {
        if enc_format(enc) != 0 {
            Some(Err(DecodeError::UnsupportedEncoding))
        } else {
            let apos = spec_round_up(base + pos, 8) - base;
            if 0 <= pos && apos + 8 <= s.len() {
                let raw = le_u64_at(s, apos) as u64;
                if enc_indirect(enc) {
                    match spec_indirect_load(s, base, raw) {
                        Some(v) => Some(Ok((v, apos + 8))),
                        None => None,
                    }
                } else {
                    Some(Ok((raw, apos + 8)))
                }
            } else {
                None
            }
        }
    } else {
        match spec_read_value(s, pos, enc_format(enc)) {
            None => None,
            Some(Err(e)) => Some(Err(e)),
            Some(Ok((v, end))) => match spec_apply_base(v, enc_base(enc), base + end, ctx) {
                Err(e) => Some(Err(e)),
                Ok(v2) => if enc_indirect(enc) {
                    match spec_indirect_load(s, base, v2) {
                        Some(v3) => Some(Ok((v3, end))),
                        None => None,
                    }
                } else {
                    Some(Ok((v2, end)))
                },
            },
        }
    }
}

/// A successfully decoded pointer ends strictly after its starting position
/// and inside the buffer.
pub proof fn lemma_read_encoded_bounds(s: Seq<u8>, base: u64, pos: int, ctx: EHContext, enc: u8)
    ensures
        match spec_read_encoded(s, base, pos, ctx, enc) {
            Some(Ok((v, end))) => pos < end <= s.len(),
            _ => true,
        },
{
    reveal(spec_read_encoded);
    reveal(spec_read_value);
    if spec_read_encoded(s, base, pos, ctx, enc) matches Some(Ok(_)) {
        if enc != DW_EH_PE_omit && enc_base(enc) == DW_EH_PE_aligned {
        } else if enc != DW_EH_PE_omit {
            let fmt = enc_format(enc);
            if fmt == DW_EH_PE_uleb128 {
                crate::dwarf::lemma_uleb_bounds(s, pos);
            } else if fmt == DW_EH_PE_sleb128 {
                crate::dwarf::lemma_leb_same_shape(s, pos);
                crate::dwarf::lemma_uleb_bounds(s, pos);
                crate::dwarf::lemma_sleb_from_uleb(s, pos);
            }
        }
    }
}

/// `action_code` zero asks for a cleanup routine; every other code marks a
/// catching handler.
pub open spec fn spec_classify(action: u64, lpad: u64) -> EHAction {
    if action == 0 {
        EHAction::Cleanup(lpad)
    } else {
        EHAction::Catch(lpad)
    }
}

/// The LSDA header: the landing-pad base (the function start when the first
/// encoding byte is omitted), the call-site encoding, the position of the
/// first call-site record, and the position one past the call-site table.
pub open spec fn spec_parse_header(s: Seq<u8>, base: u64, ctx: EHContext) -> Option<
    Result<(u64, u8, int, int), DecodeError>,
> {
    if s.len() < 1 {
        None
    } else {
        let start_enc = s[0];
        let lp = if start_enc != DW_EH_PE_omit {
            spec_read_encoded(s, base, 1, ctx, start_enc)
        } else {
            Some(Ok((ctx.func_start, 1)))
        };
        match lp {
            None => None,
            Some(Err(e)) => Some(Err(e)),
            Some(Ok((lpad_base, p1))) => if !(p1 + 1 <= s.len()) {
                None
            } else {
                let tt_enc = s[p1];
                let p2opt = if tt_enc != DW_EH_PE_omit {
                    if uleb_ok(s, p1 + 1) {
                        Some(uleb_end(s, p1 + 1))
                    } else {
                        None
                    }
                } else {
                    Some(p1 + 1)
                };
                match p2opt {
                    None => None,
                    Some(p2) => if !(p2 + 1 <= s.len()) {
                        None
                    } else {
                        let cs_enc = s[p2];
                        if uleb_ok(s, p2 + 1) {
                            let body = uleb_end(s, p2 + 1);
                            Some(Ok((lpad_base, cs_enc, body, body + uleb_val(s, p2 + 1))))
                        } else {
                            None
                        }
                    },
                }
            },
        }
    }
}

/// The standard-mode walk from `pos`: one call-site record (three encoded
/// values and one uleb128) per step, in ascending `start` order.  Scanning
/// stops with `Terminate` at the table's end or at the first record whose
/// range starts above the instruction pointer; a record whose range holds the
/// instruction pointer resolves the walk.
#[verifier::rlimit(100)]
pub open spec fn spec_scan(
    s: Seq<u8>,
    base: u64,
    ctx: EHContext,
    cs_enc: u8,
    lpad_base: u64,
    pos: int,
    table_end: int,
) -> Option<Result<EHAction, DecodeError>>
    decreases vstd::math::max(0, table_end - pos),
        via spec_scan_decreases
{
    if pos >= table_end {
        Some(Ok(EHAction::Terminate))
    } else {
        match spec_read_encoded(s, base, pos, ctx, cs_enc) {
            None => None,
            Some(Err(e)) => Some(Err(e)),
            Some(Ok((cs_start, p1))) => match spec_read_encoded(s, base, p1, ctx, cs_enc) {
                None => None,
                Some(Err(e)) => Some(Err(e)),
                Some(Ok((cs_len, p2))) => match spec_read_encoded(s, base, p2, ctx, cs_enc) {
                    None => None,
                    Some(Err(e)) => Some(Err(e)),
                    Some(Ok((cs_lpad, p3))) => if !uleb_ok(s, p3) {
                        None
                    } else {
                        let cs_action = uleb_val(s, p3);
                        let p4 = uleb_end(s, p3);
                        if (ctx.ip as int) < ctx.func_start + cs_start {
                            Some(Ok(EHAction::Terminate))
                        } else if (ctx.ip as int) < ctx.func_start + cs_start + cs_len {
                            if cs_lpad == 0 {
                                Some(Ok(EHAction::NoAction))
                            } else if lpad_base + cs_lpad > u64::MAX {
                                None
                            } else {
                                Some(
                                    Ok(
                                        spec_classify(
                                            cs_action as u64,
                                            (lpad_base + cs_lpad) as u64,
                                        ),
                                    ),
                                )
                            }
                        } else {
                            spec_scan(s, base, ctx, cs_enc, lpad_base, p4, table_end)
                        }
                    },
                },
            },
        }
    }
}

#[via_fn]
proof fn spec_scan_decreases(
    s: Seq<u8>,
    base: u64,
    ctx: EHContext,
    cs_enc: u8,
    lpad_base: u64,
    pos: int,
    table_end: int,
) {
    if pos < table_end {
        if let Some(Ok((v0, p1))) = spec_read_encoded(s, base, pos, ctx, cs_enc) {
            lemma_read_encoded_bounds(s, base, pos, ctx, cs_enc);
            if let Some(Ok((v1, p2))) = spec_read_encoded(s, base, p1, ctx, cs_enc) {
                lemma_read_encoded_bounds(s, base, p1, ctx, cs_enc);
                if let Some(Ok((v2, p3))) = spec_read_encoded(s, base, p2, ctx, cs_enc) {
                    lemma_read_encoded_bounds(s, base, p2, ctx, cs_enc);
                    if uleb_ok(s, p3) {
                        crate::dwarf::lemma_uleb_bounds(s, p3);
                    }
                }
            }
        }
    }
}

/// The alternate-mode walk: `n` counts down over `(landing-pad delta,
/// action)` uleb128 pairs from the start of the action table; the `n`-th pair
/// is the match, and its landing pad is the delta plus one.
pub open spec fn spec_alt(s: Seq<u8>, pos: int, n: int) -> Option<Result<EHAction, DecodeError>>
    decreases n,
{
    if n <= 0 {
        None
    } else if !uleb_ok(s, pos) {
        None
    } else {
        let delta = uleb_val(s, pos);
        let p1 = uleb_end(s, pos);
        if !uleb_ok(s, p1) {
            None
        } else {
            let action = uleb_val(s, p1);
            let p2 = uleb_end(s, p1);
            if n == 1 {
                if delta + 1 > u64::MAX {
                    None
                } else {
                    Some(Ok(spec_classify(action as u64, (delta + 1) as u64)))
                }
            } else {
                spec_alt(s, p2, n - 1)
            }
        }
    }
}

/// The whole resolution for one frame.  A null LSDA address resolves to
/// `NoAction` before anything is read.  Otherwise the header is parsed, and
/// the mode picks the walk: in alternate mode the instruction pointer is a
/// control value first (`-1` resolves to `NoAction` and `0` to `Terminate`
/// without reading the action table).
pub open spec fn spec_find_eh_action(mode: LookupMode, s: Seq<u8>, base: u64, ctx: EHContext) -> Option<
    Result<EHAction, DecodeError>,
> {
    if base == 0 {
        Some(Ok(EHAction::NoAction))
    } else if base as int + s.len() + 8 > u64::MAX as int {
        None
    } else {
        match spec_parse_header(s, base, ctx) {
            None => None,
            Some(Err(e)) => Some(Err(e)),
            Some(Ok((lpad_base, cs_enc, body, table_end))) => match mode {
                LookupMode::Standard => spec_scan(s, base, ctx, cs_enc, lpad_base, body, table_end),
                LookupMode::Alternate => {
                    if ctx.ip == u64::MAX {
                        Some(Ok(EHAction::NoAction))
                    } else if ctx.ip == 0 {
                        Some(Ok(EHAction::Terminate))
                    } else if ctx.ip >= 0x8000_0000_0000_0000 {
                        None
                    } else {
                        spec_alt(s, body, ctx.ip as int)
                    }
                },
            },
        }
    }
}

/// One of the nine value formats an encoded pointer can use.
pub open spec fn supported_format(fmt: u8) -> bool {
    fmt == DW_EH_PE_absptr || fmt == DW_EH_PE_uleb128 || fmt == DW_EH_PE_udata2 || fmt
        == DW_EH_PE_udata4 || fmt == DW_EH_PE_udata8 || fmt == DW_EH_PE_sleb128 || fmt
        == DW_EH_PE_sdata2 || fmt == DW_EH_PE_sdata4 || fmt == DW_EH_PE_sdata8
}

/// Round trip: a value stored with the pc-relative base, in any supported
/// format, decodes back to the absolute address it was derived from, when it
/// holds that address's delta from the cursor position just after the value.
pub proof fn lemma_pcrel_round_trip(
    s: Seq<u8>,
    base: u64,
    pos: int,
    ctx: EHContext,
    fmt: u8,
    v: u64,
    end: int,
    target: u64,
)
    requires
        supported_format(fmt),
        base as int + s.len() <= u64::MAX as int,
        spec_read_value(s, pos, fmt) == Some(Ok::<(u64, int), DecodeError>((v, end))),
        wrap_add(v as nat, (base + end) as nat) == target as nat,
    ensures
        spec_read_encoded(s, base, pos, ctx, (DW_EH_PE_pcrel + fmt) as u8) == Some(
            Ok::<(u64, int), DecodeError>((target, end)),
        ),
{
    reveal(spec_read_encoded);
    let enc = (DW_EH_PE_pcrel + fmt) as u8;
    assert(enc_format(enc) == fmt);
    assert(enc_base(enc) == DW_EH_PE_pcrel);
    assert(!enc_indirect(enc));
}

/// The indirect bit performs exactly one extra address-width load at the
/// address the direct encoding would have produced, whatever the base
/// selector, and changes nothing else.
#[verifier::rlimit(100)]
pub proof fn lemma_indirect_extra_load(
    s: Seq<u8>,
    base: u64,
    pos: int,
    ctx: EHContext,
    enc: u8,
    v: u64,
    end: int,
)
    requires
        enc_indirect(enc),
        enc != DW_EH_PE_omit,
        spec_read_encoded(s, base, pos, ctx, (enc - 0x80) as u8) == Some(
            Ok::<(u64, int), DecodeError>((v, end)),
        ),
        base <= v,
        v - base + 8 <= s.len(),
    ensures
        spec_read_encoded(s, base, pos, ctx, enc) == Some(
            Ok::<(u64, int), DecodeError>((le_u64_at(s, v - base) as u64, end)),
        ),
{
    reveal(spec_read_encoded);
    let direct = (enc - 0x80) as u8;
    assert(enc_format(enc) == enc_format(direct));
    assert(enc_base(enc) == enc_base(direct));
    assert(!enc_indirect(direct));
}

/// The `aligned` base selector rounds the cursor's absolute address up to the
/// next address-width boundary (a no-op when it is already aligned), reads
/// one verbatim address-width value there, and adds no base afterwards.
pub proof fn lemma_aligned_read(s: Seq<u8>, base: u64, pos: int, ctx: EHContext)
    requires
        0 <= pos,
        spec_round_up(base + pos, 8) - base + 8 <= s.len(),
    ensures
        spec_read_encoded(s, base, pos, ctx, DW_EH_PE_aligned) == Some(
            Ok::<(u64, int), DecodeError>(
                (
                    le_u64_at(s, spec_round_up(base + pos, 8) - base) as u64,
                    spec_round_up(base + pos, 8) - base + 8,
                ),
            ),
        ),
        spec_round_up(base + pos, 8) % 8 == 0,
        base + pos <= spec_round_up(base + pos, 8) < base + pos + 8,
        (base + pos) % 8 == 0 ==> spec_round_up(base + pos, 8) == base + pos,
{
    reveal(spec_read_encoded);
    assert(enc_base(DW_EH_PE_aligned) == DW_EH_PE_aligned);
    assert(enc_format(DW_EH_PE_aligned) == 0);
    assert(!enc_indirect(DW_EH_PE_aligned));
}

/// The whole call-site table from `pos`, parsed record by record.
#[verifier::rlimit(100)]
pub open spec fn spec_records(
    s: Seq<u8>,
    base: u64,
    ctx: EHContext,
    cs_enc: u8,
    pos: int,
    table_end: int,
) -> Option<Result<Seq<CallSiteRecord>, DecodeError>>
    decreases vstd::math::max(0, table_end - pos),
        via spec_records_decreases
{
    if pos >= table_end {
        Some(Ok(Seq::empty()))
    } else {
        match spec_read_encoded(s, base, pos, ctx, cs_enc) {
            None => None,
            Some(Err(e)) => Some(Err(e)),
            Some(Ok((cs_start, p1))) => match spec_read_encoded(s, base, p1, ctx, cs_enc) {
                None => None,
                Some(Err(e)) => Some(Err(e)),
                Some(Ok((cs_len, p2))) => match spec_read_encoded(s, base, p2, ctx, cs_enc) {
                    None => None,
                    Some(Err(e)) => Some(Err(e)),
                    Some(Ok((cs_lpad, p3))) => if !uleb_ok(s, p3) {
                        None
                    } else {
                        let rec = CallSiteRecord {
                            start: cs_start,
                            len: cs_len,
                            lpad: cs_lpad,
                            action: uleb_val(s, p3) as u64,
                        };
                        match spec_records(s, base, ctx, cs_enc, uleb_end(s, p3), table_end) {
                            None => None,
                            Some(Err(e)) => Some(Err(e)),
                            Some(Ok(rest)) => Some(Ok(seq![rec] + rest)),
                        }
                    },
                },
            },
        }
    }
}

#[via_fn]
proof fn spec_records_decreases(
    s: Seq<u8>,
    base: u64,
    ctx: EHContext,
    cs_enc: u8,
    pos: int,
    table_end: int,
) {
    if pos < table_end {
        if let Some(Ok((v0, p1))) = spec_read_encoded(s, base, pos, ctx, cs_enc) {
            lemma_read_encoded_bounds(s, base, pos, ctx, cs_enc);
            if let Some(Ok((v1, p2))) = spec_read_encoded(s, base, p1, ctx, cs_enc) {
                lemma_read_encoded_bounds(s, base, p1, ctx, cs_enc);
                if let Some(Ok((v2, p3))) = spec_read_encoded(s, base, p2, ctx, cs_enc) {
                    lemma_read_encoded_bounds(s, base, p2, ctx, cs_enc);
                    if uleb_ok(s, p3) {
                        crate::dwarf::lemma_uleb_bounds(s, p3);
                    }
                }
            }
        }
    }
}

/// When no record of the table covers the instruction pointer, the scan
/// reports `Terminate` — never a neighbouring record's action — whether it
/// stops early at a record starting above the pointer or runs off the table's
/// end.
#[verifier::rlimit(100)]
pub proof fn lemma_uncovered_ip_terminates(
    s: Seq<u8>,
    base: u64,
    ctx: EHContext,
    cs_enc: u8,
    lpad_base: u64,
    pos: int,
    table_end: int,
    records: Seq<CallSiteRecord>,
)
    requires
        spec_records(s, base, ctx, cs_enc, pos, table_end) == Some(
            Ok::<Seq<CallSiteRecord>, DecodeError>(records),
        ),
        forall|i: int| 0 <= i < records.len() ==> !records[i].covers(ctx.func_start, ctx.ip),
    ensures
        spec_scan(s, base, ctx, cs_enc, lpad_base, pos, table_end) == Some(
            Ok::<EHAction, DecodeError>(EHAction::Terminate),
        ),
    decreases vstd::math::max(0, table_end - pos),
{
    if pos < table_end {
        if let Some(Ok((cs_start, p1))) = spec_read_encoded(s, base, pos, ctx, cs_enc) {
            lemma_read_encoded_bounds(s, base, pos, ctx, cs_enc);
            if let Some(Ok((cs_len, p2))) = spec_read_encoded(s, base, p1, ctx, cs_enc) {
                lemma_read_encoded_bounds(s, base, p1, ctx, cs_enc);
                if let Some(Ok((cs_lpad, p3))) = spec_read_encoded(s, base, p2, ctx, cs_enc) {
                    lemma_read_encoded_bounds(s, base, p2, ctx, cs_enc);
                    if uleb_ok(s, p3) {
                        crate::dwarf::lemma_uleb_bounds(s, p3);
                        let p4 = uleb_end(s, p3);
                        let rec = CallSiteRecord {
                            start: cs_start,
                            len: cs_len,
                            lpad: cs_lpad,
                            action: uleb_val(s, p3) as u64,
                        };
                        if let Some(Ok(rest)) = spec_records(s, base, ctx, cs_enc, p4, table_end) {
                            assert(records == seq![rec] + rest);
                            assert(records[0] == rec);
                            assert(!rec.covers(ctx.func_start, ctx.ip));
                            if (ctx.ip as int) >= ctx.func_start + cs_start + cs_len {
                                assert(forall|i: int|
                                    0 <= i < rest.len() ==> rest[i] == records[i + 1]);
                                lemma_uncovered_ip_terminates(
                                    s,
                                    base,
                                    ctx,
                                    cs_enc,
                                    lpad_base,
                                    p4,
                                    table_end,
                                    rest,
                                );
                            }
                        }
                    }
                }
            }
        }
    }
}

/// In a table whose earlier records all lie wholly below the instruction
/// pointer — as they do in a sorted table — the first record covering the
/// pointer resolves the scan: `NoAction` when its landing-pad offset is zero,
/// whatever its action code, and otherwise its action code classified with
/// the landing pad rebased onto `lpad_base`.
#[verifier::rlimit(100)]
pub proof fn lemma_first_covering_record_resolves(
    s: Seq<u8>,
    base: u64,
    ctx: EHContext,
    cs_enc: u8,
    lpad_base: u64,
    pos: int,
    table_end: int,
    records: Seq<CallSiteRecord>,
    k: int,
)
    requires
        spec_records(s, base, ctx, cs_enc, pos, table_end) == Some(
            Ok::<Seq<CallSiteRecord>, DecodeError>(records),
        ),
        0 <= k < records.len(),
        records[k].covers(ctx.func_start, ctx.ip),
        forall|i: int|
            0 <= i < k ==> ctx.func_start + records[i].start + records[i].len <= ctx.ip as int,
        records[k].lpad != 0 ==> lpad_base + records[k].lpad <= u64::MAX,
    ensures
        spec_scan(s, base, ctx, cs_enc, lpad_base, pos, table_end) == Some(
            Ok::<EHAction, DecodeError>(
                if records[k].lpad == 0 {
                    EHAction::NoAction
                } else {
                    spec_classify(records[k].action, (lpad_base + records[k].lpad) as u64)
                },
            ),
        ),
    decreases vstd::math::max(0, table_end - pos),
{
    assert(pos < table_end);
    if let Some(Ok((cs_start, p1))) = spec_read_encoded(s, base, pos, ctx, cs_enc) {
        lemma_read_encoded_bounds(s, base, pos, ctx, cs_enc);
        if let Some(Ok((cs_len, p2))) = spec_read_encoded(s, base, p1, ctx, cs_enc) {
            lemma_read_encoded_bounds(s, base, p1, ctx, cs_enc);
            if let Some(Ok((cs_lpad, p3))) = spec_read_encoded(s, base, p2, ctx, cs_enc) {
                lemma_read_encoded_bounds(s, base, p2, ctx, cs_enc);
                if uleb_ok(s, p3) {
                    crate::dwarf::lemma_uleb_bounds(s, p3);
                    let p4 = uleb_end(s, p3);
                    let rec = CallSiteRecord {
                        start: cs_start,
                        len: cs_len,
                        lpad: cs_lpad,
                        action: uleb_val(s, p3) as u64,
                    };
                    if let Some(Ok(rest)) = spec_records(s, base, ctx, cs_enc, p4, table_end) {
                        assert(records == seq![rec] + rest);
                        assert(records[0] == rec);
                        if k == 0 {
                            assert(rec.covers(ctx.func_start, ctx.ip));
                        } else {
                            assert(ctx.func_start + rec.start + rec.len <= ctx.ip as int);
                            assert(forall|i: int|
                                0 <= i < rest.len() ==> rest[i] == records[i + 1]);
                            lemma_first_covering_record_resolves(
                                s,
                                base,
                                ctx,
                                cs_enc,
                                lpad_base,
                                p4,
                                table_end,
                                rest,
                                k - 1,
                            );
                        }
                    }
                }
            }
        }
    }
}

/// A matched record whose landing-pad offset is zero resolves to `NoAction`
/// whatever its action code holds: the zero check comes before
/// classification, and nothing here constrains the code.
pub proof fn lemma_zero_landing_pad_is_no_action(
    s: Seq<u8>,
    base: u64,
    ctx: EHContext,
    cs_enc: u8,
    lpad_base: u64,
    pos: int,
    table_end: int,
    records: Seq<CallSiteRecord>,
    k: int,
)
    requires
        spec_records(s, base, ctx, cs_enc, pos, table_end) == Some(
            Ok::<Seq<CallSiteRecord>, DecodeError>(records),
        ),
        0 <= k < records.len(),
        records[k].covers(ctx.func_start, ctx.ip),
        forall|i: int|
            0 <= i < k ==> ctx.func_start + records[i].start + records[i].len <= ctx.ip as int,
        records[k].lpad == 0,
    ensures
        spec_scan(s, base, ctx, cs_enc, lpad_base, pos, table_end) == Some(
            Ok::<EHAction, DecodeError>(EHAction::NoAction),
        ),
{
    lemma_first_covering_record_resolves(
        s,
        base,
        ctx,
        cs_enc,
        lpad_base,
        pos,
        table_end,
        records,
        k,
    );
}

/// In alternate mode the control values `-1` and `0` (as the address-width
/// signed reading of the instruction pointer) resolve right after the header,
/// without reading the action table.
pub proof fn lemma_alternate_sentinels(s: Seq<u8>, base: u64, ctx: EHContext)
    requires
        base != 0,
        base as int + s.len() + 8 <= u64::MAX as int,
        spec_parse_header(s, base, ctx) matches Some(Ok(_)),
        ctx.ip == u64::MAX || ctx.ip == 0,
    ensures
        spec_find_eh_action(LookupMode::Alternate, s, base, ctx) == Some(
            Ok::<EHAction, DecodeError>(
                if ctx.ip == u64::MAX {
                    EHAction::NoAction
                } else {
                    EHAction::Terminate
                },
            ),
        ),
{
}

/// The first `n` `(landing-pad delta, action code)` pairs of the action
/// table; `None` when one of them cannot be decoded.
pub open spec fn spec_pairs(s: Seq<u8>, pos: int, n: int) -> Option<Seq<(u64, u64)>>
    decreases n,
{
    if n <= 0 {
        Some(Seq::empty())
    } else if !uleb_ok(s, pos) {
        None
    } else {
        let delta = uleb_val(s, pos);
        let p1 = uleb_end(s, pos);
        if !uleb_ok(s, p1) {
            None
        } else {
            let action = uleb_val(s, p1);
            let p2 = uleb_end(s, p1);
            match spec_pairs(s, p2, n - 1) {
                None => None,
                Some(rest) => Some(seq![(delta as u64, action as u64)] + rest),
            }
        }
    }
}

/// A positive alternate-mode index `n` selects exactly the `n`-th pair
/// counting from the table's start; the matched landing pad is that pair's
/// delta plus one, and its action code is classified unchanged.
pub proof fn lemma_alternate_index(s: Seq<u8>, pos: int, n: int, pairs: Seq<(u64, u64)>)
    requires
        1 <= n,
        spec_pairs(s, pos, n) == Some(pairs),
        pairs.len() == n ==> pairs[n - 1].0 as int + 1 <= u64::MAX as int,
    ensures
        pairs.len() == n,
        spec_alt(s, pos, n) == Some(
            Ok::<EHAction, DecodeError>(
                spec_classify(pairs[n - 1].1, (pairs[n - 1].0 + 1) as u64),
            ),
        ),
    decreases n,
{
    let delta = uleb_val(s, pos);
    let p1 = uleb_end(s, pos);
    let action = uleb_val(s, p1);
    let p2 = uleb_end(s, p1);
    if let Some(rest) = spec_pairs(s, p2, n - 1) {
        assert(pairs == seq![((delta as u64), (action as u64))] + rest);
        if n > 1 {
            assert(forall|i: int| 0 <= i < rest.len() ==> rest[i] == pairs[i + 1]);
            lemma_alternate_index(s, p2, n - 1, rest);
        }
    }
}

/// Whether `n` is a power of two.
pub fn is_power_of_two(n: u64) -> (r: bool)
    ensures
        r == is_pow2(n as nat),
{
    if n == 0 {
        return false;
    }
    let mut m: u64 = n;
    while m % 2 == 0
        invariant
            m >= 1,
            is_pow2(m as nat) == is_pow2(n as nat),
        decreases m,
    {
        m = m / 2;
    }
    m == 1
}

/// Rounds an absolute address up to the next multiple of `align`, which must
/// be a power of two.
pub fn round_up(unrounded: u64, align: u64) -> (r: Result<u64, ()>)
    requires
        align == 0 || unrounded as int + align as int - 1 <= u64::MAX as int,
    ensures
        match r {
            Ok(v) => is_pow2(align as nat) && v as int == spec_round_up(
                unrounded as int,
                align as int,
            ),
            Err(e) => !is_pow2(align as nat),
        },
{
    if !is_power_of_two(align) {
        return Err(());
    }
    let rem = unrounded % align;
    if rem == 0 {
        Ok(unrounded)
    } else {
        Ok(unrounded + (align - rem))
    }
}

/// Maps a matched record's disposition code and landing pad to the resolved
/// action: code zero runs a cleanup routine (for same-runtime and foreign
/// unwinding alike); any other code marks a catching handler.
pub fn interpret_cs_action(cs_action: u64, lpad: u64) -> (r: EHAction)
    ensures
        r == spec_classify(cs_action, lpad),
{
    if cs_action == 0 {
        EHAction::Cleanup(lpad)
    } else {
        EHAction::Catch(lpad)
    }
}

/// Reads one raw value of format `fmt` at the cursor, zero- or sign-extended
/// to the address width; exactly [`spec_read_value`] at the cursor's position.
fn read_format_value(reader: &mut DwarfReader, fmt: u8) -> (r: Result<u64, DecodeError>)
    requires
        old(reader).wf(),
        spec_read_value(old(reader).bytes@, old(reader).pos as int, fmt) is Some,
    ensures
        final(reader).wf(),
        final(reader).bytes@ == old(reader).bytes@,
        final(reader).base == old(reader).base,
        old(reader).pos <= final(reader).pos,
        match r {
            Ok(v) => spec_read_value(old(reader).bytes@, old(reader).pos as int, fmt) == Some(
                Ok::<(u64, int), DecodeError>((v, final(reader).pos as int)),
            ) && old(reader).pos < final(reader).pos,
            Err(e) => spec_read_value(old(reader).bytes@, old(reader).pos as int, fmt) == Some(
                Err::<(u64, int), DecodeError>(e),
            ) && final(reader).pos == old(reader).pos,
        },
{
    proof {
        reveal(spec_read_value);
    }
    let ghost s = old(reader).bytes@;
    let ghost pos0 = old(reader).pos as int;
    if fmt == DW_EH_PE_absptr {
        Ok(reader.read_u64())
    } else if fmt == DW_EH_PE_uleb128 {
        proof {
            crate::dwarf::lemma_uleb_bounds(s, pos0);
        }
        Ok(reader.read_uleb128())
    } else if fmt == DW_EH_PE_udata2 {
        Ok(reader.read_u16() as u64)
    } else if fmt == DW_EH_PE_udata4 {
        Ok(reader.read_u32() as u64)
    } else if fmt == DW_EH_PE_udata8 {
        Ok(reader.read_u64())
    } else if fmt == DW_EH_PE_sleb128 {
        proof {
            crate::dwarf::lemma_leb_same_shape(s, pos0);
            crate::dwarf::lemma_uleb_bounds(s, pos0);
            crate::dwarf::lemma_sleb_from_uleb(s, pos0);
        }
        let sv = reader.read_sleb128();
        // reinterpreted at the address width: negative deltas wrap
        let v: u64 = if sv >= 0 {
            sv as u64
        } else {
            u64::MAX - ((-(sv + 1)) as u64)
        };
        proof {
            assert(v as nat == as_address(sleb_val(s, pos0)));
        }
        Ok(v)
    } else if fmt == DW_EH_PE_sdata2 {
        let h = reader.read_u16();
        // sign-extended to the address width
        let v: u64 = if h < 0x8000 {
            h as u64
        } else {
            h as u64 + 0xFFFF_FFFF_FFFF_0000
        };
        Ok(v)
    } else if fmt == DW_EH_PE_sdata4 {
        let w = reader.read_u32();
        // sign-extended to the address width
        let v: u64 = if w < 0x8000_0000 {
            w as u64
        } else {
            w as u64 + 0xFFFF_FFFF_0000_0000
        };
        Ok(v)
    } else if fmt == DW_EH_PE_sdata8 {
        Ok(reader.read_u64())
    } else {
        Err(DecodeError::UnsupportedEncoding)
    }
}

/// Reads one address-width value at the cursor's absolute position rounded up
/// to the next address-width boundary, with no base added afterwards.
fn read_aligned_value(reader: &mut DwarfReader) -> (r: u64)
    requires
        old(reader).wf(),
        spec_round_up(old(reader).base + old(reader).pos, 8) - old(reader).base + 8 <= old(
            reader,
        ).bytes@.len(),
    ensures
        final(reader).wf(),
        final(reader).bytes@ == old(reader).bytes@,
        final(reader).base == old(reader).base,
        old(reader).pos <= final(reader).pos,
        final(reader).pos as int == spec_round_up(
            old(reader).base + old(reader).pos,
            8,
        ) - old(reader).base + 8,
        r as nat == le_u64_at(
            old(reader).bytes@,
            spec_round_up(old(reader).base + old(reader).pos, 8) - old(reader).base,
        ),
{
    let ghost apos = spec_round_up(old(reader).base + old(reader).pos, 8) - old(reader).base;
    let cur = reader.base + reader.pos as u64;
    let aligned = match round_up(cur, 8) {
        Ok(a) => a,
        Err(_) => {
            proof {
                assert(is_pow2(8)) by {
                    reveal_with_fuel(is_pow2, 5);
                };
            }
            // unreachable: the address width is a power of two
            0
        },
    };
    proof {
        assert((cur as int) % 8 >= 0 && (cur as int) % 8 < 8);
        assert((cur as int) <= (aligned as int));
        assert((aligned as int) < (cur as int) + 8);
    }
    let delta = (aligned - cur) as usize;
    let buf_len = reader.bytes.len();
    proof {
        assert(buf_len == old(reader).bytes@.len());
        assert(apos <= buf_len);
    }
    let new_pos = reader.pos + delta;
    proof {
        assert(new_pos as int == apos);
    }
    reader.pos = new_pos;
    reader.read_u64()
}

/// Reads one encoded pointer at the cursor and relocates it as the encoding
/// byte directs; exactly [`spec_read_encoded`] at the cursor's position.
#[verifier::rlimit(100)]
pub fn read_encoded_pointer(reader: &mut DwarfReader, context: &EHContext, encoding: u8) -> (r:
    Result<u64, DecodeError>)
    requires
        old(reader).wf(),
        spec_read_encoded(
            old(reader).bytes@,
            old(reader).base,
            old(reader).pos as int,
            *context,
            encoding,
        ) is Some,
    ensures
        final(reader).wf(),
        final(reader).bytes@ == old(reader).bytes@,
        final(reader).base == old(reader).base,
        old(reader).pos <= final(reader).pos,
        match r {
            Ok(v) => spec_read_encoded(
                old(reader).bytes@,
                old(reader).base,
                old(reader).pos as int,
                *context,
                encoding,
            ) == Some(Ok::<(u64, int), DecodeError>((v, final(reader).pos as int))) && old(
                reader,
            ).pos < final(reader).pos,
            Err(e) => spec_read_encoded(
                old(reader).bytes@,
                old(reader).base,
                old(reader).pos as int,
                *context,
                encoding,
            ) == Some(Err::<(u64, int), DecodeError>(e)),
        },
{
    proof {
        reveal(spec_read_encoded);
    }
    let ghost s = old(reader).bytes@;
    let ghost pos0 = old(reader).pos as int;
    let ghost b0 = old(reader).base;

    if encoding == DW_EH_PE_omit {
        return Err(DecodeError::OmittedField);
    }
    let base_sel = ((encoding / 16) % 8) * 16;
    let fmt = encoding % 16;
    proof {
        assert(base_sel == enc_base(encoding));
        assert(fmt == enc_format(encoding));
    }

    if base_sel == DW_EH_PE_aligned {
        if fmt != 0 {
            return Err(DecodeError::UnsupportedEncoding);
        }
        let ghost apos = spec_round_up(b0 + pos0, 8) - b0;
        proof {
            assert(0 <= pos0 && apos + 8 <= s.len());
        }
        let raw = read_aligned_value(reader);
        if encoding >= DW_EH_PE_indirect {
            proof {
                assert(spec_read_encoded(s, b0, pos0, *context, encoding) == (
                match spec_indirect_load(s, b0, raw) {
                    Some(v) => Some(Ok::<(u64, int), DecodeError>((v, apos + 8))),
                    None => None,
                }));
                assert(spec_indirect_load(s, b0, raw) is Some);
            }
            let v = reader.load_address(raw);
            Ok(v)
        } else {
            Ok(raw)
        }
    } else {
        proof {
            assert(spec_read_value(s, pos0, enc_format(encoding)) is Some);
        }
        let value = match read_format_value(reader, fmt) {
            Ok(v) => v,
            Err(e) => {
                return Err(e);
            },
        };
        let ghost end = reader.pos as int;
        let addend: u64 = if base_sel == DW_EH_PE_absptr {
            0
        } else if base_sel == DW_EH_PE_pcrel {
            // relative to the address just after the encoded value
            reader.base + reader.pos as u64
        } else if base_sel == DW_EH_PE_textrel {
            context.text_start
        } else if base_sel == DW_EH_PE_datarel {
            context.data_start
        } else if base_sel == DW_EH_PE_funcrel {
            if context.func_start == 0 {
                return Err(DecodeError::MissingFunctionBase);
            }
            context.func_start
        } else {
            return Err(DecodeError::UnsupportedEncoding);
        };
        let relocated = value.wrapping_add(addend);
        proof {
            assert(spec_apply_base(value, enc_base(encoding), b0 + end, *context) == Ok::<
                u64,
                DecodeError,
            >(relocated));
        }
        if encoding >= DW_EH_PE_indirect {
            proof {
                assert(spec_read_encoded(s, b0, pos0, *context, encoding) == (
                match spec_indirect_load(s, b0, relocated) {
                    Some(v) => Some(Ok::<(u64, int), DecodeError>((v, end))),
                    None => None,
                }));
                assert(spec_indirect_load(s, b0, relocated) is Some);
            }
            let v = reader.load_address(relocated);
            Ok(v)
        } else {
            Ok(relocated)
        }
    }
}

/// Resolves the unwinding action for one frame.  `lsda_base` is the absolute
/// address of the frame's LSDA (the null address means the function has no
/// exception metadata and resolves to `NoAction` with nothing read), and
/// `lsda` holds the bytes at that address.  The result is exactly
/// [`spec_find_eh_action`] on the same inputs.
#[verifier::rlimit(100)]
#[verifier::loop_isolation(false)]
pub fn find_eh_action(mode: LookupMode, lsda_base: u64, lsda: &[u8], context: &EHContext) -> (r:
    Result<EHAction, DecodeError>)
    requires
        spec_find_eh_action(mode, lsda@, lsda_base, *context) is Some,
    ensures
        spec_find_eh_action(mode, lsda@, lsda_base, *context) == Some(r),
{
    let ghost s = lsda@;
    let ghost ctx = *context;
    if lsda_base == 0 {
        return Ok(EHAction::NoAction);
    }
    proof {
        assert(lsda_base as int + s.len() + 8 <= u64::MAX as int);
        assert(spec_parse_header(s, lsda_base, ctx) is Some);
        assert(s.len() >= 1);
    }
    let mut reader = DwarfReader::new(lsda, lsda_base);

    let start_encoding = reader.read_u8();
    // base address for landing-pad offsets
    let lpad_base: u64 = if start_encoding != DW_EH_PE_omit {
        proof {
            assert(spec_read_encoded(s, lsda_base, 1, ctx, start_encoding) is Some);
        }
        match read_encoded_pointer(&mut reader, context, start_encoding) {
            Ok(v) => v,
            Err(e) => {
                return Err(e);
            },
        }
    } else {
        context.func_start
    };

    proof {
        assert(reader.pos as int + 1 <= s.len());
    }
    let ttype_encoding = reader.read_u8();
    if ttype_encoding != DW_EH_PE_omit {
        // exception types are never analyzed: skip the type-table offset
        proof {
            assert(uleb_ok(s, reader.pos as int));
            crate::dwarf::lemma_uleb_bounds(s, reader.pos as int);
        }
        reader.read_uleb128();
    }

    proof {
        assert(reader.pos as int + 1 <= s.len());
    }
    let call_site_encoding = reader.read_u8();
    proof {
        assert(uleb_ok(s, reader.pos as int));
        crate::dwarf::lemma_uleb_bounds(s, reader.pos as int);
    }
    let call_site_table_length = reader.read_uleb128();
    let ghost body = reader.pos as int;
    let ghost table_end = body + call_site_table_length;
    proof {
        assert(spec_parse_header(s, lsda_base, ctx) == Some(
            Ok::<(u64, u8, int, int), DecodeError>(
                (lpad_base, call_site_encoding, body, table_end),
            ),
        ));
    }

    match mode {
        LookupMode::Standard => {
            let ghost goal = spec_scan(
                s,
                lsda_base,
                ctx,
                call_site_encoding,
                lpad_base,
                body,
                table_end,
            );
            proof {
                assert(spec_find_eh_action(mode, s, lsda_base, ctx) == goal);
            }
            let table_end_wide: u128 = reader.pos as u128 + call_site_table_length as u128;
            let ip = context.ip;
            let func_start = context.func_start;
            while (reader.pos as u128) < table_end_wide
                invariant
                    reader.wf(),
                    reader.bytes@ == s,
                    reader.base == lsda_base,
                    table_end_wide == table_end,
                    ip == ctx.ip,
                    func_start == ctx.func_start,
                    goal is Some,
                    spec_scan(
                        s,
                        lsda_base,
                        ctx,
                        call_site_encoding,
                        lpad_base,
                        reader.pos as int,
                        table_end,
                    ) == goal,
                decreases vstd::math::max(0, table_end - reader.pos as int),
            {
                let ghost p = reader.pos as int;
                proof {
                    assert(spec_read_encoded(s, lsda_base, p, ctx, call_site_encoding) is Some);
                }
                let cs_start = match read_encoded_pointer(&mut reader, context, call_site_encoding) {
                    Ok(v) => v,
                    Err(e) => {
                        return Err(e);
                    },
                };
                proof {
                    assert(spec_read_encoded(s, lsda_base, reader.pos as int, ctx, call_site_encoding) is Some);
                }
                let cs_len = match read_encoded_pointer(&mut reader, context, call_site_encoding) {
                    Ok(v) => v,
                    Err(e) => {
                        return Err(e);
                    },
                };
                proof {
                    assert(spec_read_encoded(s, lsda_base, reader.pos as int, ctx, call_site_encoding) is Some);
                }
                let cs_lpad = match read_encoded_pointer(&mut reader, context, call_site_encoding) {
                    Ok(v) => v,
                    Err(e) => {
                        return Err(e);
                    },
                };
                proof {
                    assert(uleb_ok(s, reader.pos as int));
                    crate::dwarf::lemma_uleb_bounds(s, reader.pos as int);
                }
                let cs_action = reader.read_uleb128();
                // the table is sorted by cs_start: past the ip nothing can match
                if (ip as u128) < (func_start as u128) + (cs_start as u128) {
                    return Ok(EHAction::Terminate);
                }
                if (ip as u128) < (func_start as u128) + (cs_start as u128) + (cs_len as u128) {
                    if cs_lpad == 0 {
                        return Ok(EHAction::NoAction);
                    } else {
                        proof {
                            assert(lpad_base + cs_lpad <= u64::MAX);
                        }
                        let lpad = lpad_base + cs_lpad;
                        return Ok(interpret_cs_action(cs_action, lpad));
                    }
                }
            }
            // the ip is not present in the table: a nounwind call site
            Ok(EHAction::Terminate)
        },
        LookupMode::Alternate => {
            // the "ip" is a control value: -1 means no action, 0 terminate,
            // any other value a one-based index into the action table
            let ip = context.ip;
            if ip == u64::MAX {
                return Ok(EHAction::NoAction);
            }
            if ip == 0 {
                return Ok(EHAction::Terminate);
            }
            let ghost goal = spec_alt(s, body, ip as int);
            proof {
                assert(ip < 0x8000_0000_0000_0000);
                assert(spec_find_eh_action(mode, s, lsda_base, ctx) == goal);
            }
            let mut idx: u64 = ip;
            while idx > 0
                invariant
                    reader.wf(),
                    reader.bytes@ == s,
                    reader.base == lsda_base,
                    idx >= 1,
                    goal is Some,
                    spec_alt(s, reader.pos as int, idx as int) == goal,
                decreases idx,
            {
                proof {
                    assert(uleb_ok(s, reader.pos as int));
                    crate::dwarf::lemma_uleb_bounds(s, reader.pos as int);
                }
                let cs_lpad = reader.read_uleb128();
                proof {
                    assert(uleb_ok(s, reader.pos as int));
                    crate::dwarf::lemma_uleb_bounds(s, reader.pos as int);
                }
                let cs_action = reader.read_uleb128();
                idx = idx - 1;
                if idx == 0 {
                    // a zero landing pad would have been the -1 sentinel, so
                    // the matched delta is offset by one
                    proof {
                        assert(cs_lpad + 1 <= u64::MAX);
                    }
                    let lpad = cs_lpad + 1;
                    return Ok(interpret_cs_action(cs_action, lpad));
                }
            }
            proof {
                // the walk always resolves at index zero
                assert(false);
            }
            Ok(EHAction::Terminate)
        },
    }
}

} // verus!
