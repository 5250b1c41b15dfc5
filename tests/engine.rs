use kbdpatch::bytes::{read_u32_be, read_u32_le};
use kbdpatch::frame::{compress_to_exact_cap, make_skippable_frame};
use kbdpatch::json::Json;
use kbdpatch::layout::{ensure_one_char, full_sig_row, full_signature_rows, key_pair_from_val, signature_string, validate_layout, validate_override};
use kbdpatch::mapping::{apply_mapping_by_base_letter, apply_mapping_by_position, build_letter_mapping, compute_after, mapping_outcome, set_key_pair, LetterMapping, MappingOutcome};
use kbdpatch::scan::{load_candidate_at, scan_regions};
use kbdpatch::score::{choose_candidate, contains_ordered, evaluate_candidate, locale_full_sig, score_candidate, select_candidate};
use kbdpatch::state::{early_decision, hex_encode, new_record, record_after_run, repatch_targets, sha256_hex, sha256_with_schema, EarlyAction, PatchHit, RunResult, StateRecord};
use kbdpatch::txn::{make_plan, verify_one, Transaction, TxnAction, TxnPhase};
use kbdpatch::PatchError;

fn s(t: &str) -> Vec<char> {
    t.chars().collect()
}

fn key(d: &str, sh: &str) -> Json {
    Json::Object(vec![
        (s("default"), Json::Array(vec![Json::Str(s(d))])),
        (s("shifted"), Json::Array(vec![Json::Str(s(sh))])),
    ])
}

fn special() -> Json {
    Json::Object(vec![(s("special"), Json::Str(s("shift")))])
}

fn doc(rows: Vec<Vec<Json>>) -> Json {
    Json::Object(vec![
        (s("alphabetic"), Json::Array(rows.into_iter().map(Json::Array).collect())),
        (s("name"), Json::Str(s("layout"))),
    ])
}

fn letter_row(letters: &str) -> Vec<Json> {
    letters.chars().map(|c| key(&c.to_string(), &c.to_uppercase().to_string())).collect()
}

fn de_override(swap_qy: bool) -> Json {
    let mut r0 = letter_row("qwertzuiopü");
    let r1 = letter_row("asdfghjklöä");
    let mut r2 = vec![special()];
    r2.extend(letter_row("yxcvbnm"));
    if swap_qy {
        r0[0] = key("y", "Y");
    }
    doc(vec![r0, r1, r2])
}

fn us_doc() -> Json {
    let mut r2 = vec![special()];
    r2.extend(letter_row("zxcvbnm"));
    doc(vec![letter_row("qwertyuiop"), letter_row("asdfghjkl"), r2])
}

fn de() -> Vec<char> {
    s("de_DE")
}

fn mapping(swap_qy: bool) -> LetterMapping {
    build_letter_mapping(&de(), &de_override(swap_qy)).unwrap()
}

fn row_keys(d: &Json, r: usize) -> &Vec<Json> {
    match d {
        Json::Object(f) => match &f[0].1 {
            Json::Array(rows) => match &rows[r] {
                Json::Array(k) => k,
                _ => panic!("row"),
            },
            _ => panic!("rows"),
        },
        _ => panic!("doc"),
    }
}

fn with_header_le(payload: &[u8]) -> Vec<u8> {
    let mut v = (payload.len() as u32).to_le_bytes().to_vec();
    v.extend_from_slice(payload);
    v
}

#[test]
fn reads_u32_in_both_orders() {
    let b = [0u8, 1, 2, 3, 4];
    assert_eq!(read_u32_be(&b, 1), Ok(0x01020304));
    assert_eq!(read_u32_le(&b, 1), Ok(0x04030201));
    assert_eq!(read_u32_be(&b, 2), Err(PatchError::OutOfRange));
    assert_eq!(read_u32_le(&b, 5), Err(PatchError::OutOfRange));
}

#[test]
fn skippable_frame_layout() {
    assert_eq!(make_skippable_frame(8).unwrap(), vec![0x50, 0x2a, 0x4d, 0x18, 0, 0, 0, 0]);
    assert_eq!(make_skippable_frame(11).unwrap(), vec![0x50, 0x2a, 0x4d, 0x18, 3, 0, 0, 0, 0, 0, 0]);
    assert_eq!(make_skippable_frame(7), Err(PatchError::BadPaddingSize));
}

#[test]
fn exact_cap_round_trips_through_decoder() {
    let raw = br#"{"alphabetic":[[{"default":["q"],"shifted":["Q"]}]],"name":"layout"}"#.to_vec();
    let (out, level, pad) = compress_to_exact_cap(&raw, 300).unwrap();
    assert_eq!(out.len(), 300);
    assert_eq!(level, 3);
    assert!(pad >= 8);
    let file = with_header_le(&out);
    assert_eq!(load_candidate_at(&file, 0, 300), Ok(raw));
}

#[test]
fn tiny_capacity_fails_without_plan() {
    let raw = br#"{"alphabetic":[]}"#.to_vec();
    assert_eq!(compress_to_exact_cap(&raw, 1), Err(PatchError::CapacityExceeded));
    let file = vec![0u8; 64];
    assert!(make_plan(&file, 0, 1, raw, s("sig")).is_err());
}

#[test]
fn ordered_containment() {
    assert!(contains_ordered(&s("q1w2e3rtzuiopü"), &s("qwertzuiop")));
    assert!(!contains_ordered(&s("wq"), &s("qw")));
    assert!(contains_ordered(&s("abc"), &s("")));
    assert!(!contains_ordered(&s(""), &s("a")));
}

#[test]
fn scores_weight_umlauts_and_exact_match() {
    let (a, b, c) = locale_full_sig(&de()).unwrap();
    assert_eq!(a, s("qwertzuiopü"));
    assert_eq!(score_candidate(&de(), &a, &b, &c, true), 39300);
    assert_eq!(score_candidate(&de(), &s("qwertzuiop"), &s("asdfghjkl"), &s("yxcvbnm"), false), 3300);
    assert_eq!(score_candidate(&de(), &s("ü"), &s("öä"), &s(""), false), 16000);
    assert_eq!(score_candidate(&s("fr_FR"), &a, &b, &c, true), 0);
    assert_eq!(locale_full_sig(&s("fr_FR")), Err(PatchError::UnsupportedLocale));
}

#[test]
fn signature_skips_special_and_long_keys() {
    let row = vec![special(), key("a", "A"), key("ab", "AB"), Json::Null, key("ß", "ẞ")];
    assert_eq!(full_sig_row(&row), s("aß"));
    let d = us_doc();
    let (r0, r1, r2) = full_signature_rows(&d).unwrap();
    assert_eq!((r0, r1, r2), (s("qwertyuiop"), s("asdfghjkl"), s("zxcvbnm")));
    assert_eq!(signature_string(&d), s("qwertyuiop|asdfghjkl|zxcvbnm"));
    assert_eq!(signature_string(&Json::Null), s("unknown"));
}

#[test]
fn shape_checks() {
    assert_eq!(validate_layout(&us_doc()), Ok(()));
    assert_eq!(validate_override(&us_doc()), Ok(()));
    let two = doc(vec![vec![], vec![]]);
    assert_eq!(validate_layout(&two), Err(PatchError::NotLayout));
    let four = doc(vec![vec![], vec![], vec![], vec![]]);
    assert_eq!(validate_layout(&four), Ok(()));
    assert_eq!(validate_override(&four), Err(PatchError::NotLayout));
}

#[test]
fn override_key_pairs() {
    assert_eq!(key_pair_from_val(&key("y", "Y")), Ok((s("y"), s("Y"))));
    let no_shift = Json::Object(vec![(s("default"), Json::Array(vec![Json::Str(s("x"))]))]);
    assert_eq!(key_pair_from_val(&no_shift), Ok((s("x"), s("x"))));
    assert_eq!(key_pair_from_val(&special()), Err(PatchError::SpecialKey));
    assert_eq!(key_pair_from_val(&key("xy", "X")), Err(PatchError::NotOneChar));
    assert_eq!(key_pair_from_val(&Json::Null), Err(PatchError::KeyNotObject));
    assert_eq!(ensure_one_char(&s("ä")), Ok(()));
    assert_eq!(ensure_one_char(&s("")), Err(PatchError::NotOneChar));
}

#[test]
fn mapping_build_rejects_bad_overrides() {
    assert!(build_letter_mapping(&s("en_US"), &de_override(false)).is_err());
    let short = doc(vec![letter_row("qwertzuiop"), letter_row("asdfghjklöä"), letter_row("yxcvbnmm")]);
    assert_eq!(build_letter_mapping(&de(), &short).err(), Some(PatchError::RowTooShort));
    let m = mapping(true);
    assert_eq!(m.entries.len(), 29);
    assert_eq!(m.get('q'), Some((&s("y"), &s("Y"))));
    assert_eq!(m.get('ü'), Some((&s("ü"), &s("Ü"))));
    assert_eq!(m.get('1'), None);
}

#[test]
fn german_swap_rewrites_q_key_only_where_mapped() {
    let m = mapping(true);
    let mut base = us_doc();
    if let Json::Object(f) = &mut base {
        if let Json::Array(rows) = &mut f[0].1 {
            if let Json::Array(k) = &mut rows[0] {
                k.push(key("1", "!"));
            }
        }
    }
    let (after, touched, changed) = apply_mapping_by_base_letter(base, &m).unwrap();
    let r0 = row_keys(&after, 0);
    assert_eq!(r0[0], key("y", "Y"));
    assert_eq!(r0[1], key("w", "W"));
    assert_eq!(r0[10], key("1", "!"));
    let r2 = row_keys(&after, 2);
    assert_eq!(r2[0], special());
    assert_eq!(touched, 26);
    assert_eq!(changed, 1);
}

#[test]
fn upper_case_base_letters_fold() {
    let m = mapping(true);
    let base = doc(vec![vec![key("Q", "q")], vec![], vec![]]);
    let (after, touched, changed) = apply_mapping_by_base_letter(base, &m).unwrap();
    assert_eq!(row_keys(&after, 0)[0], key("y", "Y"));
    assert_eq!((touched, changed), (1, 1));
}

#[test]
fn position_fallback_when_no_letter_matches() {
    let m = mapping(false);
    let digits = |n: usize| -> Vec<Json> { (0..n).map(|i| key(&format!("{}", i % 10), "#")).collect() };
    let mut r2 = vec![special()];
    r2.extend(digits(7));
    let base = doc(vec![digits(10), digits(9), r2]);
    let (after, touched, changed) = compute_after(base, &m, &de(), true).unwrap();
    assert_eq!((touched, changed), (26, 26));
    assert_eq!(row_keys(&after, 0)[0], key("q", "Q"));
    assert_eq!(row_keys(&after, 2)[1], key("y", "Y"));
    let mut r2b = vec![special()];
    r2b.extend(digits(7));
    let base2 = doc(vec![digits(10), digits(9), r2b]);
    let (_, t2, _) = compute_after(base2, &m, &de(), false).unwrap();
    assert_eq!(t2, 0);
    let base3 = doc(vec![digits(10), digits(9), digits(8)]);
    assert_eq!(apply_mapping_by_position(&s("xx"), base3, &m).err(), Some(PatchError::UnsupportedLocale));
}

#[test]
fn set_key_pair_reports_change() {
    let (k, did) = set_key_pair(key("a", "A"), &s("a"), &s("A")).unwrap();
    assert_eq!(k, key("a", "A"));
    assert!(!did);
    let (k2, did2) = set_key_pair(key("a", "A"), &s("b"), &s("B")).unwrap();
    assert_eq!(k2, key("b", "B"));
    assert!(did2);
    assert_eq!(set_key_pair(special(), &s("b"), &s("B")).err(), Some(PatchError::SpecialKey));
}

#[test]
fn mapping_outcomes() {
    assert_eq!(mapping_outcome(0, 0, true), Err(PatchError::NothingTouched));
    assert_eq!(mapping_outcome(0, 0, false), Ok(MappingOutcome::NoChange));
    assert_eq!(mapping_outcome(3, 1, true), Ok(MappingOutcome::Write));
}

#[test]
fn scan_finds_both_byte_orders() {
    let payload = zstd::bulk::compress(&[b'x'; 200], 3).unwrap();
    let mut padded = payload.clone();
    padded.extend(make_skippable_frame(100).unwrap());
    let cap = padded.len() as u32;
    let mut buf = vec![0xAAu8; 16];
    buf.extend_from_slice(&cap.to_be_bytes());
    buf.extend_from_slice(&padded);
    buf.extend_from_slice(&[0x28, 0xb5, 0x2f, 0xfd]);
    buf.extend_from_slice(&cap.to_le_bytes());
    buf.extend_from_slice(&padded);
    let regions = scan_regions(&buf);
    assert!(regions.contains(&(16, cap)));
    assert!(regions.contains(&(20 + padded.len() + 4, cap)));
    assert_eq!(load_candidate_at(&buf, 16, cap), Ok(vec![b'x'; 200]));
    assert_eq!(load_candidate_at(&buf, 16, cap + 1), Err(PatchError::CapMismatch));
}

fn decoy(sig0: &str) -> Json {
    doc(vec![letter_row(sig0), letter_row("asdfghjkl"), letter_row("yxcvbnm")])
}

fn exact_doc() -> Json {
    let mut r2 = vec![special()];
    r2.extend(letter_row("yxcvbnm"));
    doc(vec![letter_row("qwertzuiopü"), letter_row("asdfghjklöä"), r2])
}

#[test]
fn exact_match_is_chosen_anywhere_among_decoys() {
    for pos in 0..4 {
        let mut found = vec![(100, 90u32, decoy("qwertzuiop")), (200, 90, Json::Null), (300, 90, decoy("üqwertz")), (400, 90, us_doc())];
        found.insert(pos, (999, 95, exact_doc()));
        let c = select_candidate(&de(), found).unwrap();
        assert_eq!(c.hdr_off, 999);
        assert!(c.exact);
        assert_eq!(c.score, 39300);
    }
    assert_eq!(select_candidate(&de(), vec![(1, 90, Json::Null)]).err(), Some(PatchError::NoCandidates));
}

#[test]
fn ties_keep_discovery_order() {
    let a = evaluate_candidate(&de(), 1, 90, decoy("qwertzuiop")).unwrap();
    let b = evaluate_candidate(&de(), 2, 90, decoy("qwertzuiop")).unwrap();
    assert_eq!(choose_candidate(&vec![a, b]), Some(0));
    assert!(evaluate_candidate(&de(), 3, 90, Json::Null).is_none());
}

#[test]
fn hashing_is_hex_sha256() {
    assert_eq!(hex_encode(&[0x00, 0xab, 0x7f]), s("00ab7f"));
    assert_eq!(sha256_hex(b"abc"), s("ba7816bf8f01cfea414140de5dae2223b00361a396177a9cb410ff61f20015ad"));
    assert_ne!(sha256_with_schema(b"{}"), sha256_hex(b"{}"));
    assert_eq!(sha256_with_schema(b"{}"), sha256_hex(b"{}kbdpatch-state-v2"));
}

fn record(patched: &str, over: &str, locale: &str, hits: usize) -> StateRecord {
    let mut r = new_record(s("orig"), s(patched), s(over), s(locale), 16, 300, s("sig"));
    for i in 1..hits {
        r.hits.push(PatchHit { hdr_off: 16 + i as u64, cap: 300, sig: s("sig") });
    }
    r
}

#[test]
fn rerun_with_same_inputs_is_noop() {
    let rec = record("after", "over", "de_DE", 1);
    assert_eq!(early_decision(Some(&rec), &s("after"), &s("over"), &de(), false, false), EarlyAction::Unchanged);
    assert_eq!(early_decision(Some(&rec), &s("after"), &s("over"), &de(), true, false), EarlyAction::Unchanged);
    assert_eq!(early_decision(Some(&rec), &s("after"), &s("over"), &de(), false, true), EarlyAction::Proceed);
    assert_eq!(early_decision(Some(&rec), &s("after"), &s("other"), &de(), true, false), EarlyAction::NeedsPatch);
    assert_eq!(early_decision(None, &s("after"), &s("over"), &de(), false, false), EarlyAction::Proceed);
}

#[test]
fn repatch_targets_follow_record() {
    let rec = record("after", "over", "de_DE", 6);
    let t = repatch_targets(&rec, &s("after"), &de());
    assert_eq!(t, vec![(16, 300), (17, 300), (18, 300), (19, 300)]);
    assert!(repatch_targets(&rec, &s("changed"), &de()).is_empty());
    assert!(repatch_targets(&rec, &s("after"), &s("fr_FR")).is_empty());
}

fn write_at(file: &mut Vec<u8>, off: usize, data: &[u8]) {
    file[off..off + data.len()].copy_from_slice(data);
}

#[test]
fn transaction_verifies_a_clean_write() {
    let orig_payload = zstd::bulk::compress(br#"{"a":1}"#, 3).unwrap();
    let mut file = vec![7u8; 8];
    file.extend(with_header_le(&orig_payload));
    file.extend(vec![9u8; 8]);
    let cap = orig_payload.len() as u32;
    let before = file.clone();
    let (plan, _, _) = make_plan(&file, 8, cap, br#"{"a":2}"#.to_vec(), s("sig")).unwrap();
    assert_eq!(plan.old_payload, orig_payload);
    let mut t = Transaction::new(plan);
    assert_eq!(t.start(), TxnAction::WriteNew);
    let off = t.payload_offset();
    let new_payload = t.plan.new_payload.clone();
    write_at(&mut file, off, &new_payload);
    assert_eq!(verify_one(&file, &t.plan), Ok(()));
    assert_eq!(t.on_reread(&file), TxnAction::Succeed);
    assert_eq!(t.phase, TxnPhase::Verified);
    assert_eq!(&file[..8], &before[..8]);
    assert_eq!(&file[file.len() - 8..], &before[before.len() - 8..]);
}

#[test]
fn corrupted_write_rolls_back() {
    let orig_payload = zstd::bulk::compress(br#"{"a":1,"b":[1,2,3]}"#, 3).unwrap();
    let mut file = vec![1u8; 4];
    file.extend(with_header_le(&orig_payload));
    let cap = orig_payload.len() as u32;
    let before = file.clone();
    let (plan, _, _) = make_plan(&file, 4, cap, br#"{"a":5}"#.to_vec(), s("sig")).unwrap();
    let mut t = Transaction::new(plan);
    assert_eq!(t.start(), TxnAction::WriteNew);
    let off = t.payload_offset();
    let mut corrupted = t.plan.new_payload.clone();
    corrupted[0] ^= 0xff;
    write_at(&mut file, off, &corrupted);
    assert_eq!(t.on_reread(&file), TxnAction::WriteOld);
    let old = t.plan.old_payload.clone();
    write_at(&mut file, off, &old);
    assert_eq!(t.on_rolled_back(), TxnAction::Fail(PatchError::MissingMagic));
    assert_eq!(t.phase, TxnPhase::RolledBack);
    assert_eq!(file, before);
}

#[test]
fn non_string_shifted_is_rewritten() {
    let odd = Json::Object(vec![
        (s("default"), Json::Array(vec![Json::Str(s("a"))])),
        (s("shifted"), Json::Array(vec![Json::Number(s("7"))])),
    ]);
    let (k, did) = set_key_pair(odd, &s("a"), &s("a")).unwrap();
    assert!(did);
    assert_eq!(k, key("a", "a"));
    let odd_base = Json::Object(vec![
        (s("default"), Json::Array(vec![Json::Str(s("a"))])),
        (s("shifted"), Json::Array(vec![Json::Number(s("7"))])),
    ]);
    let m = mapping(false);
    let base = doc(vec![vec![odd_base], vec![], vec![]]);
    let (after, touched, changed) = apply_mapping_by_base_letter(base, &m).unwrap();
    assert_eq!((touched, changed), (1, 1));
    assert_eq!(row_keys(&after, 0)[0], key("a", "A"));
}

#[test]
fn missing_shifted_field_is_added() {
    let bare = Json::Object(vec![(s("default"), Json::Array(vec![Json::Str(s("q"))])), (s("width"), Json::Number(s("2")))]);
    let (k, did) = set_key_pair(bare, &s("y"), &s("Y")).unwrap();
    assert!(did);
    assert_eq!(k, Json::Object(vec![
        (s("default"), Json::Array(vec![Json::Str(s("y"))])),
        (s("width"), Json::Number(s("2"))),
        (s("shifted"), Json::Array(vec![Json::Str(s("Y"))])),
    ]));
}

#[test]
fn record_after_run_picks_hashes() {
    let res = RunResult { state_orig_sha: Some(s("first")), sha_post: Some(s("post")), hdr_off: 5, cap: 90, sig: s("a|b|c") };
    let r = record_after_run(res, s("cur"), s("over"), de());
    assert_eq!((r.orig_sha.clone(), r.patched_sha.clone()), (s("first"), s("post")));
    assert_eq!(r.schema, s("kbdpatch-state-v2"));
    assert_eq!((r.hits[0].hdr_off, r.hits[0].cap), (5, 90));
    let res2 = RunResult { state_orig_sha: None, sha_post: None, hdr_off: 5, cap: 90, sig: s("x") };
    let r2 = record_after_run(res2, s("cur"), s("over"), de());
    assert_eq!((r2.orig_sha.clone(), r2.patched_sha.clone()), (s("cur"), s("cur")));
}

#[test]
fn fits_when_some_level_fits() {
    let raw = vec![b'z'; 4000];
    let small = zstd::bulk::compress(&raw, 3).unwrap().len();
    let (out, _, pad) = compress_to_exact_cap(&raw, small).unwrap();
    assert_eq!(out.len(), small);
    assert!(pad == 0 || pad >= 8);
    let (out8, level8, pad8) = compress_to_exact_cap(&raw, small + 8).unwrap();
    assert_eq!((out8.len(), level8, pad8), (small + 8, 3, 8));
}
