use dwarf_eh::dwarf::DwarfReader;
use dwarf_eh::eh::read_encoded_pointer;
use dwarf_eh::eh::round_up;
use dwarf_eh::eh::DecodeError;
use dwarf_eh::eh::EHContext;
use dwarf_eh::eh::DW_EH_PE_absptr;
use dwarf_eh::eh::DW_EH_PE_aligned;
use dwarf_eh::eh::DW_EH_PE_datarel;
use dwarf_eh::eh::DW_EH_PE_funcrel;
use dwarf_eh::eh::DW_EH_PE_indirect;
use dwarf_eh::eh::DW_EH_PE_omit;
use dwarf_eh::eh::DW_EH_PE_pcrel;
use dwarf_eh::eh::DW_EH_PE_sdata2;
use dwarf_eh::eh::DW_EH_PE_sdata4;
use dwarf_eh::eh::DW_EH_PE_sdata8;
use dwarf_eh::eh::DW_EH_PE_sleb128;
use dwarf_eh::eh::DW_EH_PE_textrel;
use dwarf_eh::eh::DW_EH_PE_udata2;
use dwarf_eh::eh::DW_EH_PE_udata4;
use dwarf_eh::eh::DW_EH_PE_udata8;
use dwarf_eh::eh::DW_EH_PE_uleb128;

fn ctx(ip: u64, func_start: u64) -> EHContext {
    EHContext { ip, func_start, text_start: 0x7000, data_start: 0x8000 }
}

fn uleb(mut v: u64) -> Vec<u8> {
    let mut out = Vec::new();
    loop {
        let byte = (v & 0x7F) as u8;
        v >>= 7;
        if v == 0 {
            out.push(byte);
            return out;
        }
        out.push(byte | 0x80);
    }
}

fn sleb(mut v: i64) -> Vec<u8> {
    let mut out = Vec::new();
    loop {
        let byte = (v & 0x7F) as u8;
        v >>= 7;
        let done = (v == 0 && byte & 0x40 == 0) || (v == -1 && byte & 0x40 != 0);
        if done {
            out.push(byte);
            return out;
        }
        out.push(byte | 0x80);
    }
}

#[test]
fn fixed_width_reads_are_little_endian() {
    let buf: Vec<u8> = vec![0x01, 0x02, 0x03, 0x04, 0x05, 0x06, 0x07, 0x08, 0xFF, 0x00];
    let mut r = DwarfReader::new(&buf, 0x1000);
    assert_eq!(r.read_u8(), 0x01);
    assert_eq!(r.read_u16(), 0x0302);
    assert_eq!(r.read_u32(), 0x07060504);
    assert_eq!(r.pos, 7);
    let mut r2 = DwarfReader::new(&buf, 0x1000);
    assert_eq!(r2.read_u64(), 0x0807060504030201);
    assert_eq!(r2.pos, 8);
}

#[test]
fn uleb128_reads() {
    // 624485 is the classic three-byte example
    let buf: Vec<u8> = vec![0xE5, 0x8E, 0x26, 0x7F];
    let mut r = DwarfReader::new(&buf, 0);
    assert_eq!(r.read_uleb128(), 624485);
    assert_eq!(r.pos, 3);
    assert_eq!(r.read_uleb128(), 0x7F);

    let big = uleb(u64::MAX);
    let mut r2 = DwarfReader::new(&big, 0);
    assert_eq!(r2.read_uleb128(), u64::MAX);

    // a padded, non-minimal encoding of zero
    let padded: Vec<u8> = vec![0x80, 0x80, 0x00];
    let mut r3 = DwarfReader::new(&padded, 0);
    assert_eq!(r3.read_uleb128(), 0);
    assert_eq!(r3.pos, 3);
}

#[test]
fn sleb128_reads() {
    let buf = sleb(-123456);
    let mut r = DwarfReader::new(&buf, 0);
    assert_eq!(r.read_sleb128(), -123456);
    assert_eq!(r.pos, buf.len());

    for v in [0i64, 63, 64, -1, -64, -65, i64::MAX, i64::MIN] {
        let enc = sleb(v);
        let mut rr = DwarfReader::new(&enc, 0);
        assert_eq!(rr.read_sleb128(), v, "value {v}");
    }
}

#[test]
fn round_up_rounds_to_power_of_two() {
    assert_eq!(round_up(0x1001, 8), Ok(0x1008));
    assert_eq!(round_up(0x1000, 8), Ok(0x1000));
    assert_eq!(round_up(0x1007, 8), Ok(0x1008));
    assert_eq!(round_up(5, 1), Ok(5));
    assert_eq!(round_up(5, 7), Err(()));
    assert_eq!(round_up(5, 0), Err(()));
}

// Round trip: for every supported value format, a pc-relative delta decodes
// back to the absolute address it was derived from.
fn pcrel_case(payload: Vec<u8>, fmt: u8, target_of_end: impl Fn(u64) -> u64) {
    let base: u64 = 0x4000;
    let mut r = DwarfReader::new(&payload, base);
    let c = ctx(0, 0x1000);
    let end = payload.len() as u64;
    let got = read_encoded_pointer(&mut r, &c, DW_EH_PE_pcrel | fmt).unwrap();
    assert_eq!(got, target_of_end(base + end));
    assert_eq!(r.pos as u64, end);
}

#[test]
fn pcrel_round_trip_unsigned_formats() {
    // the stored value is the delta of the target from the post-read cursor
    pcrel_case(vec![0x10, 0x00], DW_EH_PE_udata2, |c| c + 0x10);
    pcrel_case(vec![0x34, 0x12, 0x00, 0x00], DW_EH_PE_udata4, |c| c + 0x1234);
    pcrel_case(
        vec![0x08, 0x00, 0x00, 0x00, 0x00, 0x00, 0x00, 0x00],
        DW_EH_PE_udata8,
        |c| c + 8,
    );
    pcrel_case(
        vec![0x20, 0x00, 0x00, 0x00, 0x00, 0x00, 0x00, 0x00],
        DW_EH_PE_absptr,
        |c| c + 0x20,
    );
    pcrel_case(uleb(300), DW_EH_PE_uleb128, |c| c + 300);
}

#[test]
fn pcrel_round_trip_signed_formats() {
    // negative deltas point below the cursor
    pcrel_case(vec![0xFC, 0xFF], DW_EH_PE_sdata2, |c| c - 4);
    pcrel_case(vec![0x00, 0xFF, 0xFF, 0xFF], DW_EH_PE_sdata4, |c| c - 256);
    pcrel_case(
        vec![0xF8, 0xFF, 0xFF, 0xFF, 0xFF, 0xFF, 0xFF, 0xFF],
        DW_EH_PE_sdata8,
        |c| c - 8,
    );
    pcrel_case(sleb(-40), DW_EH_PE_sleb128, |c| c - 40);
    pcrel_case(sleb(48), DW_EH_PE_sleb128, |c| c + 48);
}

#[test]
fn funcrel_textrel_datarel_bases() {
    let c = ctx(0, 0x1000);
    let buf: Vec<u8> = vec![0x08, 0x00];
    let mut r = DwarfReader::new(&buf, 0x4000);
    assert_eq!(
        read_encoded_pointer(&mut r, &c, DW_EH_PE_funcrel | DW_EH_PE_udata2),
        Ok(0x1008)
    );
    let mut r = DwarfReader::new(&buf, 0x4000);
    assert_eq!(
        read_encoded_pointer(&mut r, &c, DW_EH_PE_textrel | DW_EH_PE_udata2),
        Ok(0x7008)
    );
    let mut r = DwarfReader::new(&buf, 0x4000);
    assert_eq!(
        read_encoded_pointer(&mut r, &c, DW_EH_PE_datarel | DW_EH_PE_udata2),
        Ok(0x8008)
    );
}

#[test]
fn aligned_rounds_cursor_up_and_adds_no_base() {
    // base is 8-aligned; after one header byte the cursor must round from
    // offset 1 up to offset 8
    let mut buf: Vec<u8> = vec![0xAA; 8];
    buf.extend_from_slice(&0x1122_3344_5566_7788u64.to_le_bytes());
    let c = ctx(0, 0x1000);
    let mut r = DwarfReader::new(&buf, 0x4000);
    r.pos = 1;
    assert_eq!(
        read_encoded_pointer(&mut r, &c, DW_EH_PE_aligned),
        Ok(0x1122_3344_5566_7788)
    );
    assert_eq!(r.pos, 16);

    // already aligned: rounding is a no-op
    let mut r2 = DwarfReader::new(&buf, 0x4000);
    assert_eq!(
        read_encoded_pointer(&mut r2, &c, DW_EH_PE_aligned),
        Ok(0xAAAA_AAAA_AAAA_AAAA)
    );
    assert_eq!(r2.pos, 8);
}

#[test]
fn indirect_bit_performs_one_extra_load() {
    // the encoded value names a slot inside the buffer; the slot holds the
    // final address
    let base: u64 = 0x4000;
    let mut buf: Vec<u8> = vec![0x08, 0x00, 0, 0, 0, 0, 0, 0];
    buf.extend_from_slice(&0xDEAD_BEEFu64.to_le_bytes());
    let c = ctx(0, 0x1000);

    // absolute base selector: value 8 would be returned as is ...
    let mut direct = DwarfReader::new(&buf, base);
    assert_eq!(
        read_encoded_pointer(&mut direct, &c, DW_EH_PE_udata2),
        Ok(8)
    );
    // ... but 8 is not an address inside the buffer; store base + 8 instead
    let mut buf2 = buf.clone();
    buf2[0..2].copy_from_slice(&((base + 8) as u16).to_le_bytes());
    let mut r = DwarfReader::new(&buf2, base);
    assert_eq!(
        read_encoded_pointer(&mut r, &c, DW_EH_PE_indirect | DW_EH_PE_udata2),
        Ok(0xDEAD_BEEF)
    );
    assert_eq!(r.pos, 2);
}

#[test]
fn decode_errors() {
    let c = ctx(0, 0x1000);
    let buf: Vec<u8> = vec![0x08, 0x00, 0, 0, 0, 0, 0, 0];

    let mut r = DwarfReader::new(&buf, 0x4000);
    assert_eq!(
        read_encoded_pointer(&mut r, &c, DW_EH_PE_omit),
        Err(DecodeError::OmittedField)
    );

    // function-relative with an unknown (zero) function start
    let no_func = EHContext { ip: 0, func_start: 0, text_start: 0, data_start: 0 };
    let mut r = DwarfReader::new(&buf, 0x4000);
    assert_eq!(
        read_encoded_pointer(&mut r, &no_func, DW_EH_PE_funcrel | DW_EH_PE_udata2),
        Err(DecodeError::MissingFunctionBase)
    );

    // 0x05 is not a value format
    let mut r = DwarfReader::new(&buf, 0x4000);
    assert_eq!(
        read_encoded_pointer(&mut r, &c, 0x05),
        Err(DecodeError::UnsupportedEncoding)
    );

    // 0x60 is not a base selector
    let mut r = DwarfReader::new(&buf, 0x4000);
    assert_eq!(
        read_encoded_pointer(&mut r, &c, 0x60 | DW_EH_PE_udata2),
        Err(DecodeError::UnsupportedEncoding)
    );

    // a format on the aligned selector is refused
    let mut r = DwarfReader::new(&buf, 0x4000);
    assert_eq!(
        read_encoded_pointer(&mut r, &c, DW_EH_PE_aligned | DW_EH_PE_uleb128),
        Err(DecodeError::UnsupportedEncoding)
    );
}
