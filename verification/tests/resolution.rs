use dwarf_eh::eh::find_eh_action;
use dwarf_eh::eh::interpret_cs_action;
use dwarf_eh::eh::DecodeError;
use dwarf_eh::eh::EHAction;
use dwarf_eh::eh::EHContext;
use dwarf_eh::eh::LookupMode;
use dwarf_eh::eh::DW_EH_PE_absptr;
use dwarf_eh::eh::DW_EH_PE_omit;
use dwarf_eh::eh::DW_EH_PE_udata4;

const FUNC: u64 = 0x1000;
const LSDA_BASE: u64 = 0x2000;

fn ctx(ip: u64) -> EHContext {
    EHContext { ip, func_start: FUNC, text_start: 0, data_start: 0 }
}

fn uleb(mut v: u64) -> Vec<u8> {
    let mut out = Vec::new();
    loop {
        let byte = (v & 0x7F) as u8;
        v >>= 7;
        if v == 0 {
            out.push(byte);
            return out;
        }
        out.push(byte | 0x80);
    }
}

/// A standard-mode LSDA: omitted landing-pad base, no type table, udata4
/// call-site fields, each record `(start, length, landing_pad, action)`.
fn standard_lsda(records: &[(u32, u32, u32, u64)]) -> Vec<u8> {
    let mut table = Vec::new();
    for &(start, len, lpad, action) in records {
        table.extend_from_slice(&start.to_le_bytes());
        table.extend_from_slice(&len.to_le_bytes());
        table.extend_from_slice(&lpad.to_le_bytes());
        table.extend_from_slice(&uleb(action));
    }
    let mut out = vec![DW_EH_PE_omit, DW_EH_PE_omit, DW_EH_PE_udata4];
    out.extend_from_slice(&uleb(table.len() as u64));
    out.extend_from_slice(&table);
    out
}

/// An alternate-mode LSDA: empty call-site table, then `(delta, action)`
/// uleb128 pairs as the action table.
fn alternate_lsda(pairs: &[(u64, u64)]) -> Vec<u8> {
    let mut out = vec![DW_EH_PE_omit, DW_EH_PE_omit, DW_EH_PE_udata4, 0x00];
    for &(delta, action) in pairs {
        out.extend_from_slice(&uleb(delta));
        out.extend_from_slice(&uleb(action));
    }
    out
}

#[test]
fn covered_record_with_zero_landing_pad_is_no_action() {
    // one call-site record {start=0, length=16, landing_pad=0, action=0},
    // ip inside the range
    let lsda = standard_lsda(&[(0, 16, 0, 0)]);
    let r = find_eh_action(LookupMode::Standard, LSDA_BASE, &lsda, &ctx(FUNC + 8));
    assert_eq!(r, Ok(EHAction::NoAction));
}

#[test]
fn zero_landing_pad_wins_over_any_action_code() {
    // offset zero is checked before classification
    let lsda = standard_lsda(&[(0, 16, 0, 7)]);
    let r = find_eh_action(LookupMode::Standard, LSDA_BASE, &lsda, &ctx(FUNC + 8));
    assert_eq!(r, Ok(EHAction::NoAction));
}

#[test]
fn landing_pad_rebases_on_function_start_when_base_is_omitted() {
    let lsda = standard_lsda(&[(0, 16, 32, 0)]);
    let r = find_eh_action(LookupMode::Standard, LSDA_BASE, &lsda, &ctx(FUNC + 8));
    assert_eq!(r, Ok(EHAction::Cleanup(FUNC + 32)));
}

#[test]
fn nonzero_action_is_a_catch() {
    let lsda = standard_lsda(&[(0, 16, 32, 1)]);
    let r = find_eh_action(LookupMode::Standard, LSDA_BASE, &lsda, &ctx(FUNC + 8));
    assert_eq!(r, Ok(EHAction::Catch(FUNC + 32)));
}

#[test]
fn ip_past_every_record_terminates() {
    // ip = function_start + 100, the only record covers [0, 16)
    let lsda = standard_lsda(&[(0, 16, 32, 0)]);
    let r = find_eh_action(LookupMode::Standard, LSDA_BASE, &lsda, &ctx(FUNC + 100));
    assert_eq!(r, Ok(EHAction::Terminate));
}

#[test]
fn gap_between_records_terminates_not_neighbour() {
    // ip falls between two ranges; neither neighbour's action may leak out
    let lsda = standard_lsda(&[(0, 16, 32, 0), (32, 16, 48, 1)]);
    let r = find_eh_action(LookupMode::Standard, LSDA_BASE, &lsda, &ctx(FUNC + 20));
    assert_eq!(r, Ok(EHAction::Terminate));
}

#[test]
fn ip_below_first_record_terminates_early() {
    let lsda = standard_lsda(&[(16, 16, 32, 0)]);
    let r = find_eh_action(LookupMode::Standard, LSDA_BASE, &lsda, &ctx(FUNC + 4));
    assert_eq!(r, Ok(EHAction::Terminate));
}

#[test]
fn sorted_scan_picks_the_covering_record() {
    let lsda = standard_lsda(&[(0, 16, 4, 1), (16, 16, 8, 0)]);
    let r = find_eh_action(LookupMode::Standard, LSDA_BASE, &lsda, &ctx(FUNC + 20));
    assert_eq!(r, Ok(EHAction::Cleanup(FUNC + 8)));
}

#[test]
fn explicit_landing_pad_base_is_used() {
    // absolute 8-byte landing-pad base 0x5000 in the header
    let mut lsda = vec![DW_EH_PE_absptr];
    lsda.extend_from_slice(&0x5000u64.to_le_bytes());
    lsda.push(DW_EH_PE_omit);
    lsda.push(DW_EH_PE_udata4);
    let mut table = Vec::new();
    table.extend_from_slice(&0u32.to_le_bytes());
    table.extend_from_slice(&16u32.to_le_bytes());
    table.extend_from_slice(&0x10u32.to_le_bytes());
    table.extend_from_slice(&uleb(0));
    lsda.extend_from_slice(&uleb(table.len() as u64));
    lsda.extend_from_slice(&table);
    let r = find_eh_action(LookupMode::Standard, LSDA_BASE, &lsda, &ctx(FUNC + 8));
    assert_eq!(r, Ok(EHAction::Cleanup(0x5010)));
}

#[test]
fn null_lsda_is_no_action() {
    let r = find_eh_action(LookupMode::Standard, 0, &[], &ctx(FUNC + 8));
    assert_eq!(r, Ok(EHAction::NoAction));
    let r = find_eh_action(LookupMode::Alternate, 0, &[], &ctx(FUNC + 8));
    assert_eq!(r, Ok(EHAction::NoAction));
}

#[test]
fn omitted_call_site_encoding_field_fails() {
    // a record would have to be decoded with the omitted encoding
    let lsda = vec![DW_EH_PE_omit, DW_EH_PE_omit, DW_EH_PE_omit, 0x04, 1, 2, 3, 4];
    let r = find_eh_action(LookupMode::Standard, LSDA_BASE, &lsda, &ctx(FUNC + 8));
    assert_eq!(r, Err(DecodeError::OmittedField));
}

#[test]
fn header_error_propagates() {
    // landing-pad base asks for function-relative with no function start
    let lsda = vec![0x42, 0x10, DW_EH_PE_omit, DW_EH_PE_udata4, 0x00];
    let no_func = EHContext { ip: 5, func_start: 0, text_start: 0, data_start: 0 };
    let r = find_eh_action(LookupMode::Standard, LSDA_BASE, &lsda, &no_func);
    assert_eq!(r, Err(DecodeError::MissingFunctionBase));
}

#[test]
fn alternate_sentinels_short_circuit() {
    // -1 and 0 resolve with an empty action table: nothing is read there
    let lsda = alternate_lsda(&[]);
    let r = find_eh_action(LookupMode::Alternate, LSDA_BASE, &lsda, &ctx(u64::MAX));
    assert_eq!(r, Ok(EHAction::NoAction));
    let r = find_eh_action(LookupMode::Alternate, LSDA_BASE, &lsda, &ctx(0));
    assert_eq!(r, Ok(EHAction::Terminate));
}

#[test]
fn alternate_index_selects_nth_pair() {
    let lsda = alternate_lsda(&[(5, 0), (9, 3), (300, 0)]);
    // index 1: first pair, delta 5 -> landing pad 6, action 0 -> cleanup
    let r = find_eh_action(LookupMode::Alternate, LSDA_BASE, &lsda, &ctx(1));
    assert_eq!(r, Ok(EHAction::Cleanup(6)));
    // index 2: second pair, delta 9 -> landing pad 10, action 3 -> catch
    let r = find_eh_action(LookupMode::Alternate, LSDA_BASE, &lsda, &ctx(2));
    assert_eq!(r, Ok(EHAction::Catch(10)));
    // index 3: third pair, multi-byte delta
    let r = find_eh_action(LookupMode::Alternate, LSDA_BASE, &lsda, &ctx(3));
    assert_eq!(r, Ok(EHAction::Cleanup(301)));
}

#[test]
fn type_table_offset_is_skipped_not_decoded() {
    // a present type-table encoding only makes the header skip one uleb128
    let mut lsda = vec![DW_EH_PE_omit, DW_EH_PE_absptr];
    lsda.extend_from_slice(&uleb(0xFFFF)); // type-table offset, ignored
    lsda.push(DW_EH_PE_udata4);
    let mut table = Vec::new();
    table.extend_from_slice(&0u32.to_le_bytes());
    table.extend_from_slice(&16u32.to_le_bytes());
    table.extend_from_slice(&32u32.to_le_bytes());
    table.extend_from_slice(&uleb(0));
    lsda.extend_from_slice(&uleb(table.len() as u64));
    lsda.extend_from_slice(&table);
    let r = find_eh_action(LookupMode::Standard, LSDA_BASE, &lsda, &ctx(FUNC + 8));
    assert_eq!(r, Ok(EHAction::Cleanup(FUNC + 32)));
}

#[test]
fn classifier_zero_is_cleanup_all_else_catch() {
    assert_eq!(interpret_cs_action(0, 0x77), EHAction::Cleanup(0x77));
    assert_eq!(interpret_cs_action(1, 0x77), EHAction::Catch(0x77));
    assert_eq!(interpret_cs_action(255, 0x77), EHAction::Catch(0x77));
    assert_eq!(interpret_cs_action(u64::MAX, 0x77), EHAction::Catch(0x77));
}
