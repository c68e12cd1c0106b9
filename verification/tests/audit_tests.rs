//! Audit-chain tests: deterministic accumulators, tamper evidence on a
//! concrete alteration, and the serialized entry format.

use saf::audit::audit_line;
use saf::text::u64_to_dec;
use saf::ChainHash;

fn chain_of(messages: &[&str]) -> Vec<u64> {
    let mut chain = ChainHash::new();
    let mut values = Vec::new();
    for message in messages {
        chain.update(message);
        values.push(chain.0);
    }
    values
}

#[test]
fn same_messages_give_identical_accumulators() {
    let messages = ["broker.start", "fs.list_dir path=docs", "net.get_text url=https://example.org"];
    let first = chain_of(&messages);
    let second = chain_of(&messages);
    assert_eq!(first, second);
    assert_eq!(first.len(), 3);
}

#[test]
fn altering_a_past_message_changes_later_accumulators() {
    let original = chain_of(&["alpha", "beta", "gamma"]);
    let altered = chain_of(&["alpha", "best", "gamma"]);
    assert_eq!(original.len(), altered.len());
    assert_eq!(original[0], altered[0]);
    assert_ne!(original[1], altered[1]);
    assert_ne!(original[2], altered[2]);
}

#[test]
fn fresh_chain_starts_at_zero_and_update_depends_on_state() {
    let chain = ChainHash::new();
    assert_eq!(chain.0, 0);

    let mut once = ChainHash::new();
    once.update("m");
    let mut twice = ChainHash::new();
    twice.update("m");
    twice.update("m");
    assert_ne!(once.0, twice.0);
}

#[test]
fn audit_line_format() {
    assert_eq!(audit_line(0, "x"), "0|x\n");
    assert_eq!(audit_line(1234567890, "fs.list_dir path=docs"), "1234567890|fs.list_dir path=docs\n");
    assert_eq!(audit_line(u64::MAX, ""), "18446744073709551615|\n");

    let mut chain = ChainHash::new();
    chain.update("hello");
    let line = audit_line(chain.0, "hello");
    assert_eq!(line, format!("{}|hello\n", chain.0));
}

#[test]
fn decimal_rendering() {
    assert_eq!(u64_to_dec(0), "0");
    assert_eq!(u64_to_dec(7), "7");
    assert_eq!(u64_to_dec(10), "10");
    assert_eq!(u64_to_dec(90210), "90210");
    assert_eq!(u64_to_dec(u64::MAX), "18446744073709551615");
}
