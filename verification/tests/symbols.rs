use abcd::symbols::{
    clean_symbol, exchange_for_root, futures_storage_root, is_month_code_char, known_futures_root,
    metadata_root, normalize_root_symbol, normalized_root_symbol, root_symbol_from_contract,
    tick_root_for_setup, SetupSymbols,
};

fn setup(root: Option<&str>, contract: Option<&str>, symbol: &str) -> SetupSymbols {
    SetupSymbols {
        root_symbol: root.map(|s| s.to_string()),
        contract_symbol: contract.map(|s| s.to_string()),
        symbol: symbol.to_string(),
    }
}

#[test]
fn clean_symbols_are_trimmed_upper_case() {
    assert_eq!(clean_symbol("  esz5 "), "ESZ5");
    assert_eq!(clean_symbol("straße"), "STRASSE");
    assert_eq!(normalize_root_symbol(" mnq\t"), "MNQ");
    assert_eq!(clean_symbol(""), "");
}

#[test]
fn month_codes() {
    for c in ['F', 'G', 'H', 'J', 'K', 'M', 'N', 'Q', 'U', 'V', 'X', 'Z'] {
        assert!(is_month_code_char(c));
    }
    for c in ['A', 'f', 'z', '1', 'I'] {
        assert!(!is_month_code_char(c));
    }
}

#[test]
fn roots_from_contracts() {
    assert_eq!(root_symbol_from_contract("ESZ5"), "ES");
    assert_eq!(root_symbol_from_contract(" mnqh26 "), "MNQ");
    assert_eq!(root_symbol_from_contract("M6EH6"), "M6E");
    assert_eq!(root_symbol_from_contract("ZNH6"), "ZN");
    assert_eq!(root_symbol_from_contract("QM"), "QM");
    assert_eq!(root_symbol_from_contract("Z5"), "Z5");
}

#[test]
fn setup_roots() {
    assert_eq!(normalized_root_symbol(&setup(Some(" znh6 "), None, "x")), "ZN");
    assert_eq!(normalized_root_symbol(&setup(Some("zbm25"), None, "x")), "ZB");
    assert_eq!(normalized_root_symbol(&setup(Some(" "), Some("esz5"), "x")), "ESZ5");
    assert_eq!(normalized_root_symbol(&setup(None, None, "nq")), "NQ");
    assert_eq!(normalized_root_symbol(&setup(None, Some(""), "  ")), "UNKNOWN");
    assert_eq!(normalized_root_symbol(&setup(Some("ZNA6"), None, "x")), "ZNA6");
}

#[test]
fn tick_roots() {
    assert_eq!(tick_root_for_setup(&setup(Some("ES"), Some("NQH6"), "x")), "ES");
    assert_eq!(tick_root_for_setup(&setup(None, Some(" nqh6"), "x")), "NQ");
    assert_eq!(tick_root_for_setup(&setup(None, None, "clz5")), "CL");
    assert_eq!(tick_root_for_setup(&setup(None, None, "  ")), "");
}

#[test]
fn exchanges() {
    assert_eq!(exchange_for_root("ES"), "CME");
    assert_eq!(exchange_for_root("6J"), "CME");
    assert_eq!(exchange_for_root("ZN"), "CBOT");
    assert_eq!(exchange_for_root("YM"), "CBOT");
    assert_eq!(exchange_for_root("GC"), "COMEX");
    assert_eq!(exchange_for_root("CL"), "NYMEX");
    assert_eq!(exchange_for_root("es"), "Unknown");
    assert_eq!(exchange_for_root("XYZ"), "Unknown");
}

#[test]
fn known_roots() {
    assert_eq!(known_futures_root("ESZ5"), "ES");
    assert_eq!(known_futures_root("MESH6"), "MES");
    assert_eq!(known_futures_root("es.fut"), "ES");
    assert_eq!(known_futures_root("6EH6"), "6E");
    assert_eq!(known_futures_root("ABCZ25"), "ABC");
    assert_eq!(known_futures_root("XYZH6"), "XYZ");
    assert_eq!(known_futures_root("FOO-1"), "FOO");
    assert_eq!(known_futures_root(""), "");
}

#[test]
fn metadata_roots() {
    assert_eq!(metadata_root("ESZ5", Some("GC"), Some("  ")), "GC");
    assert_eq!(metadata_root("ESZ5", Some("GC"), Some("nqh6")), "NQ");
    assert_eq!(metadata_root("NQH6", None, None), "NQ");
    assert_eq!(metadata_root("CLZ5", Some("..."), None), "CL");
}

#[test]
fn storage_roots() {
    assert_eq!(futures_storage_root("ESZ25"), "ES");
    assert_eq!(futures_storage_root("ESZ5"), "ES");
    assert_eq!(futures_storage_root("6EH"), "6E");
    assert_eq!(futures_storage_root(" mes "), "MES");
    assert_eq!(futures_storage_root("123"), "123");
    assert_eq!(futures_storage_root("BTC-USD"), "BTC");
}
