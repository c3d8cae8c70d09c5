//! The commands a client is given to run custom Move scripts and modules on a test
//! network, and the rewriting of script sources for a sender.
use vstd::prelude::*;

use crate::ids::PeerId;

verus! {

broadcast use vstd::string::group_string_axioms;

/// The character of a decimal digit.
pub open spec fn digit_char(d: nat) -> char {
    (('0' as u8) + d) as char
}

/// The decimal writing of `n`, with no leading zero.
pub open spec fn decimal(n: nat) -> Seq<char>
    decreases n,
{
    if n < 10 {
        seq![digit_char(n)]
    } else {
        decimal(n / 10).push(digit_char(n % 10))
    }
}

/// The character of an upper-case hexadecimal digit.
pub open spec fn hex_char(d: nat) -> char {
    if d < 10 {
        (('0' as u8) + d) as char
    } else {
        (('A' as u8) + (d - 10)) as char
    }
}

/// The last `width` upper-case hexadecimal digits of `n`, leading zeros included.
pub open spec fn hex_digits(n: nat, width: nat) -> Seq<char>
    decreases width,
{
    if width == 0 {
        Seq::empty()
    } else {
        hex_digits(n / 16, (width - 1) as nat).push(hex_char(n % 16))
    }
}

/// `s` with each occurrence of `pat`, found left to right and not overlapping, replaced
/// by `rep`.
pub open spec fn replace_all(s: Seq<char>, pat: Seq<char>, rep: Seq<char>) -> Seq<char>
    recommends
        pat.len() > 0,
    decreases s.len(),
{
    if pat.len() == 0 || s.len() < pat.len() {
        s
    } else if s.subrange(0, pat.len() as int) == pat {
        rep + replace_all(s.skip(pat.len() as int), pat, rep)
    } else {
        seq![s[0]] + replace_all(s.skip(1), pat, rep)
    }
}

/// `u64::to_string`: the decimal writing of `n`.
#[verifier::external_body]
pub(crate) fn decimal_string(n: u64) -> (r: String)
    ensures
        r@ == decimal(n as nat),
{
    n.to_string()
}

/// `format!("{:032X}", ..)`: the 32 upper-case hexadecimal digits of a 16-byte address.
#[verifier::external_body]
fn address_hex(address: u128) -> (r: String)
    ensures
        r@ == hex_digits(address as nat, 32),
{
    format!("{:032X}", address)
}

/// `str::replace`: every occurrence of `from` in `s`, left to right, replaced by `to`.
#[verifier::external_body]
fn replace_str(s: &str, from: &str, to: &str) -> (r: String)
    requires
        from@.len() > 0,
    ensures
        r@ == replace_all(s@, from@, to@),
{
    s.replace(from, to)
}

/// The views of a list of strings.
pub open spec fn string_views(v: Seq<String>) -> Seq<Seq<char>> {
    v.map_values(|s: String| s@)
}

/// The views of a list of string slices.
pub open spec fn str_views(v: Seq<&str>) -> Seq<Seq<char>> {
    v.map_values(|s: &str| s@)
}

/// The command that runs a compiled script from an account, with its arguments:
/// `execute`, the account, the script's path, then the arguments.
pub fn execute_script_args(sending_account: u64, script_compiled_path: &str, arguments: &[&str]) -> (r: Vec<String>)
    ensures
        string_views(r@) == seq!["execute"@, decimal(sending_account as nat), script_compiled_path@] + str_views(
            arguments@,
        ),
{
    let mut args: Vec<String> = Vec::new();
    args.push("execute".to_string());
    args.push(decimal_string(sending_account));
    args.push(script_compiled_path.to_string());
    let ghost head = string_views(args@);
    let mut i: usize = 0;
    while i < arguments.len()
        invariant
            i <= arguments@.len(),
            head == seq!["execute"@, decimal(sending_account as nat), script_compiled_path@],
            string_views(args@) == head + str_views(arguments@.subrange(0, i as int)),
        decreases arguments@.len() - i,
    {
        let ghost before = args@;
        args.push(arguments[i].to_string());
        proof {
            assert(str_views(arguments@.subrange(0, i + 1)) =~= str_views(arguments@.subrange(0, i as int)).push(
                arguments@[i as int]@,
            ));
            assert(string_views(args@) =~= string_views(before).push(arguments@[i as int]@));
        }
        i = i + 1;
    }
    proof {
        assert(arguments@.subrange(0, arguments@.len() as int) =~= arguments@);
    }
    args
}

/// The command that mints `coins` of the test currency into an account:
/// `mintb`, the account, the amount, `XUS`.
pub fn mint_coins_args(account: u64, coins: u64) -> (r: Vec<String>)
    ensures
        string_views(r@) == seq!["mintb"@, decimal(account as nat), decimal(coins as nat), "XUS"@],
{
    let mut args: Vec<String> = Vec::new();
    args.push("mintb".to_string());
    args.push(decimal_string(account));
    args.push(decimal_string(coins));
    args.push("XUS".to_string());
    assert(string_views(args@) =~= seq!["mintb"@, decimal(account as nat), decimal(coins as nat), "XUS"@]);
    args
}

/// The command that reads the balances of an account: `b`, the account.
pub fn balance_args(account: u64) -> (r: Vec<String>)
    ensures
        string_views(r@) == seq!["b"@, decimal(account as nat)],
{
    let mut args: Vec<String> = Vec::new();
    args.push("b".to_string());
    args.push(decimal_string(account));
    assert(string_views(args@) =~= seq!["b"@, decimal(account as nat)]);
    args
}

/// The compiler command for a script: `compile`, the script's source, the source of the
/// module it uses when there is one, then the Move standard library and the Diem framework.
pub fn compile_params(
    script_source_path: &str,
    maybe_module_source_path: Option<&str>,
    move_stdlib_dir: &str,
    diem_framework_dir: &str,
) -> (r: Vec<String>)
    ensures
        string_views(r@) == match maybe_module_source_path {
            Some(module) => seq!["compile"@, script_source_path@, module@, move_stdlib_dir@, diem_framework_dir@],
            None => seq!["compile"@, script_source_path@, move_stdlib_dir@, diem_framework_dir@],
        },
{
    let mut params: Vec<String> = Vec::new();
    params.push("compile".to_string());
    params.push(script_source_path.to_string());
    match maybe_module_source_path {
        Some(module) => {
            params.push(module.to_string());
        },
        None => {},
    }
    params.push(move_stdlib_dir.to_string());
    params.push(diem_framework_dir.to_string());
    proof {
        match maybe_module_source_path {
            Some(module) => {
                assert(string_views(params@) =~= seq![
                    "compile"@,
                    script_source_path@,
                    module@,
                    move_stdlib_dir@,
                    diem_framework_dir@,
                ]);
            },
            None => {
                assert(string_views(params@) =~= seq![
                    "compile"@,
                    script_source_path@,
                    move_stdlib_dir@,
                    diem_framework_dir@,
                ]);
            },
        }
    }
    params
}

/// The path of the compiled program, when the compiler produced exactly one file.
pub fn single_compiled_path(mut paths: Vec<String>) -> (r: Option<String>)
    ensures
        match r {
            Some(p) => paths@.len() == 1 && p@ == paths@[0]@,
            None => paths@.len() != 1,
        },
{
    if paths.len() != 1 {
        None
    } else {
        paths.pop()
    }
}

/// A script or module source with each `{{sender}}` replaced by the sender's address,
/// written `0x` and its 32 upper-case hexadecimal digits.
pub fn with_sender_address(code: &str, sender: PeerId) -> (r: String)
    ensures
        r@ == replace_all(code@, "{{sender}}"@, "0x"@ + hex_digits(sender as nat, 32)),
{
    let mut address = "0x".to_string();
    let digits = address_hex(sender);
    address.append(digits.as_str());
    proof {
        reveal_strlit("{{sender}}");
    }
    replace_str(code, "{{sender}}", address.as_str())
}

} // verus!
