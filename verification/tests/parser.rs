use trading_rs::finder::ScanError;
use trading_rs::number::Decimal;
use trading_rs::parser::TomlParser;
use trading_rs::trading::Thresholds;

const CACHE: &str = "[[assets]]
name = \"USDT\"
balance = 100.5

[[assets]]
name = \"BNB\"
balance = 0

[[symbols]]
base = \"BNB\"
quote = \"USDT\"
step-size = 2

[[symbols]]
base = \"ETH\"
quote = \"USDT\"
step-size = 4
";

fn limits() -> Thresholds {
    Thresholds { tighten: 15, strong: 25, ceiling: 40 }
}

#[test]
fn it_works() {
    let buf: Vec<u8> = CACHE.as_bytes().to_vec();

    let mut parser = TomlParser::new(&buf);
    let (assets, symbols) = parser.load_cache(limits()).unwrap();

    assert_eq!(assets.len(), 2);
    assert_eq!(symbols.len(), 2);
}

#[test]
fn cache_is_loaded() {
    let mut parser = TomlParser::new(CACHE.as_bytes());
    let (assets, symbols) = parser.load_cache(limits()).unwrap();
    assert_eq!(assets.len(), 2);
    assert_eq!(symbols.len(), 2);
    assert_eq!(assets[0].name, "USDT");
    assert_eq!(assets[0].balance, Decimal { digits: 1005, scale: 1 });
    assert_eq!(assets[1].name, "BNB");
    assert_eq!(assets[1].balance, Decimal { digits: 0, scale: 0 });
    assert_eq!(symbols[0].as_str(), "BNBUSDT");
    assert_eq!(symbols[0].base(), "BNB");
    assert_eq!(symbols[0].quote(), "USDT");
    assert_eq!(symbols[0].step_size(), 2);
    assert_eq!(symbols[1].as_str(), "ETHUSDT");
    assert_eq!(symbols[1].step_size(), 4);
    assert_eq!(symbols[1].position(), None);
}

#[test]
fn empty_cache() {
    let (assets, symbols) = TomlParser::new(b"").load_cache(limits()).unwrap();
    assert_eq!((assets.len(), symbols.len()), (0, 0));
    let (assets, symbols) = TomlParser::new(b"  \n\n ").load_cache(limits()).unwrap();
    assert_eq!((assets.len(), symbols.len()), (0, 0));
}

#[test]
fn cache_faults() {
    let load = |text: &str| TomlParser::new(text.as_bytes()).load_cache(limits()).err();
    assert_eq!(load("[[other]]\nname = \"a\"\n"), Some(ScanError::Grammar));
    assert_eq!(load("[[assets]]\nbalance = 1\n"), Some(ScanError::Grammar));
    assert_eq!(load("[[assets]]\nname = \"a\"\nbalance = x\n"), Some(ScanError::Grammar));
    assert_eq!(load("[[assets]]\nname = \"a\"\nbalance = 1"), Some(ScanError::EndOfInput));
    assert_eq!(load("[[assets]]\nname \"a\"\n"), Some(ScanError::Grammar));
    assert_eq!(load("[[assets"), Some(ScanError::EndOfInput));
    assert_eq!(load("[["), Some(ScanError::EndOfInput));
    assert_eq!(load("[[-]]"), Some(ScanError::Grammar));
    assert_eq!(load("[[assets]]\nname = \"a"), Some(ScanError::EndOfInput));
    assert_eq!(
        load("[[symbols]]\nbase = \"A\"\nquote = \"B\"\nstep-size = 99999999999\n"),
        Some(ScanError::OutOfRange)
    );
    assert_eq!(
        load("[[symbols]]\nbase = \"A\"\nquote = \"B\"\nstep-size = two\n"),
        Some(ScanError::Grammar)
    );
    assert_eq!(load("[[symbols]]\nbase = \"A\"\nstep-size = 2\n"), Some(ScanError::Grammar));
}

#[test]
fn tables_keys_and_values() {
    let mut parser = TomlParser::new(b"  [table-1]\n key_a = bare value\nb=\"quoted\"\n");
    assert_eq!(parser.next_table(), Ok(Some(&b"table-1"[..])));
    assert_eq!(parser.next_key(), Ok(&b"key_a"[..]));
    assert_eq!(parser.next_value(), Ok(&b"bare value"[..]));
    assert_eq!(parser.next_key(), Ok(&b"b"[..]));
    assert_eq!(parser.next_value(), Ok(&b"quoted"[..]));
    assert_eq!(parser.next_table(), Ok(None));
    assert_eq!(parser.next_key(), Err(ScanError::EndOfInput));
}

#[test]
fn skipping() {
    let mut parser = TomlParser::new(b"  ab-c_1 = 2\nx");
    parser.skip_whitespaces();
    assert_eq!(parser.skip_until(b'a'), Some(2));
    parser.skip_alphanumerics();
    assert_eq!(parser.skip_until(b'='), Some(9));
    assert_eq!(parser.skip_until(b'\n'), Some(12));
    assert_eq!(parser.skip_until(b'?'), None);
}

#[test]
fn step_size_may_be_signed() {
    let text = "[[symbols]]\nbase = \"A\"\nquote = \"B\"\nstep-size = -3\n";
    let (_, symbols) = TomlParser::new(text.as_bytes()).load_cache(limits()).unwrap();
    assert_eq!(symbols[0].step_size(), -3);
}
