use freebj::deviation::{DevOverride, DevTc, Deviation};
use freebj::deviation::DevOverride::{AboveEqual, UnderEqual};
use freebj::deviation::DeviationTable::{HardTable, SoftTable, PairTable};

fn tc(neg: bool, mag: u64, frac_len: u32) -> DevTc {
    DevTc { neg, mag, frac_len }
}

#[test]
fn it_parses_dev_override() {
    assert_eq!(DevOverride::from_str(">3+"), Ok(AboveEqual(tc(false, 3, 0), '+')));
    assert_eq!(DevOverride::from_str(">+8D"), Ok(AboveEqual(tc(false, 8, 0), 'D')));
    assert_eq!(DevOverride::from_str("<0="), Ok(UnderEqual(tc(false, 0, 0), '=')));
    assert_eq!(DevOverride::from_str("<0.5="), Ok(UnderEqual(tc(false, 5, 1), '=')));
    assert_eq!(DevOverride::from_str("<-2="), Ok(UnderEqual(tc(true, 2, 0), '=')));

    assert_eq!(DevOverride::from_str("foo"), Err(String::from("Invalid syntax")));
    assert_eq!(DevOverride::from_str(">a+"), Err(String::from("Invalid syntax")));
    assert_eq!(DevOverride::from_str("=2+"), Err(String::from("Invalid syntax")));
    assert_eq!(DevOverride::from_str(">3#"), Err(String::from("Invalid action")));
}

#[test]
fn it_parses_deviation() {
    assert_eq!(
        Deviation::from_str("16vs10:>+1="),
        Ok(Deviation { table: HardTable, row: 4, dealer: 10, action: AboveEqual(tc(false, 1, 0), '=') })
    );
    assert_eq!(
        Deviation::from_str("20vs2:>-1="),
        Ok(Deviation { table: HardTable, row: 0, dealer: 2, action: AboveEqual(tc(true, 1, 0), '=') })
    );
    assert_eq!(
        Deviation::from_str("4vsA:>-1="),
        Ok(Deviation { table: HardTable, row: 16, dealer: 1, action: AboveEqual(tc(true, 1, 0), '=') })
    );
    assert_eq!(
        Deviation::from_str("A6vs8:>-1="),
        Ok(Deviation { table: SoftTable, row: 4, dealer: 8, action: AboveEqual(tc(true, 1, 0), '=') })
    );
    assert_eq!(
        Deviation::from_str("A10vs8:>-1="),
        Ok(Deviation { table: SoftTable, row: 0, dealer: 8, action: AboveEqual(tc(true, 1, 0), '=') })
    );
    assert_eq!(
        Deviation::from_str("A2vsA:>-1="),
        Ok(Deviation { table: SoftTable, row: 8, dealer: 1, action: AboveEqual(tc(true, 1, 0), '=') })
    );
    assert_eq!(
        Deviation::from_str("AAvs8:>-1="),
        Ok(Deviation { table: SoftTable, row: 9, dealer: 8, action: AboveEqual(tc(true, 1, 0), '=') })
    );
    assert_eq!(
        Deviation::from_str("7/7vs7:<+1D"),
        Ok(Deviation { table: PairTable, row: 3, dealer: 7, action: UnderEqual(tc(false, 1, 0), 'D') })
    );
    assert_eq!(
        Deviation::from_str("A/Avs7:<+1D"),
        Ok(Deviation { table: PairTable, row: 9, dealer: 7, action: UnderEqual(tc(false, 1, 0), 'D') })
    );
    assert_eq!(
        Deviation::from_str("T/Tvs7:<+1D"),
        Ok(Deviation { table: PairTable, row: 0, dealer: 7, action: UnderEqual(tc(false, 1, 0), 'D') })
    );
}

#[test]
fn it_round_trips_override_codes() {
    for code in [">+1=", "<-2=", ">+3D", "<+0d", ">-9V", ">+0=", "<-0+"] {
        let ov = DevOverride::from_str(code).unwrap();
        assert_eq!(ov.to_string(), code, "round trip of {:?}", code);
    }
}

#[test]
fn it_round_trips_directive_overrides() {
    // re-serializing a parsed directive's override reproduces the
    // four-character code it was written with
    for (directive, code) in [
        ("16vs10:>+1=", ">+1="),
        ("9vs2:>+3D", ">+3D"),
        ("A5vs2:<-2D", "<-2D"),
        ("T/Tvs8:>+5V", ">+5V"),
    ] {
        let dev = Deviation::from_str(directive).unwrap();
        assert_eq!(dev.action.to_string(), code, "round trip of {:?}", directive);
    }
}

#[test]
fn it_serializes_overrides() {
    assert_eq!(DevOverride::from_str(">3+").unwrap().to_string(), ">+3+");
    assert_eq!(DevOverride::from_str("<0.5=").unwrap().to_string(), "<+0.5=");
    assert_eq!(DevOverride::from_str("<0.50=").unwrap().to_string(), "<+0.5=");
    assert_eq!(DevOverride::from_str(">12.25D").unwrap().to_string(), ">+12.25D");
}
