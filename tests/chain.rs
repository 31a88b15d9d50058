use move_fuzzer::chain::Chain;

#[test]
fn supported_chains_are_sui_then_aptos() {
    assert_eq!(Chain::supported_chains(), vec![Chain::Sui, Chain::Aptos]);
}

