use network::scripts::{
    balance_args, compile_params, execute_script_args, mint_coins_args, single_compiled_path, with_sender_address,
};

#[test]
fn execute_script_command() {
    let args = execute_script_args(0, "/tmp/script.mv", &["10"]);
    assert_eq!(args, vec!["execute", "0", "/tmp/script.mv", "10"]);
    let args = execute_script_args(12, "s.mv", &["0xAB", "10"]);
    assert_eq!(args, vec!["execute", "12", "s.mv", "0xAB", "10"]);
    assert_eq!(execute_script_args(3, "p", &[]), vec!["execute", "3", "p"]);
}

#[test]
fn mint_and_balance_commands() {
    assert_eq!(mint_coins_args(0, 100), vec!["mintb", "0", "100", "XUS"]);
    assert_eq!(mint_coins_args(1, 10), vec!["mintb", "1", "10", "XUS"]);
    assert_eq!(mint_coins_args(u64::MAX, 7), vec!["mintb", "18446744073709551615", "7", "XUS"]);
    assert_eq!(balance_args(1), vec!["b", "1"]);
}

#[test]
fn compile_commands() {
    assert_eq!(
        compile_params("script.move", None, "stdlib", "framework"),
        vec!["compile", "script.move", "stdlib", "framework"]
    );
    assert_eq!(
        compile_params("script.move", Some("module.move"), "stdlib", "framework"),
        vec!["compile", "script.move", "module.move", "stdlib", "framework"]
    );
}

#[test]
fn exactly_one_compiled_file() {
    assert_eq!(single_compiled_path(vec!["a.mv".to_string()]), Some("a.mv".to_string()));
    assert_eq!(single_compiled_path(vec![]), None);
    assert_eq!(single_compiled_path(vec!["a.mv".to_string(), "b.mv".to_string()]), None);
}

#[test]
fn sender_address_is_substituted() {
    let code = "address {{sender}} {\n module M {} }\n// {{sender}}";
    let out = with_sender_address(code, 0xAB);
    assert_eq!(
        out,
        "address 0x000000000000000000000000000000AB {\n module M {} }\n// 0x000000000000000000000000000000AB"
    );
    assert_eq!(with_sender_address("no placeholder", 1), "no placeholder");
    assert_eq!(with_sender_address("{{sender}}", u128::MAX), format!("0x{}", "F".repeat(32)));
    // Overlapping braces: the leftmost occurrence is replaced.
    assert_eq!(with_sender_address("{{{sender}}}", 0), "{0x00000000000000000000000000000000}");
}
