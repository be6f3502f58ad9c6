//! The text of the generated source files.
use vstd::prelude::*;
use vstd::string::StringExecFns;

verus! {

broadcast use vstd::seq_lib::group_seq_properties;

/// Opening of every generated module file: it imports the aggregator's names
/// and opens the function that inserts the module's resources into `r`.
pub const SET_MODULE_PROLOGUE: &'static str = "#[allow(clippy::wildcard_imports)]\nuse super::*;\n#[allow(clippy::unreadable_literal)]\npub(crate) fn generate(r: &mut HashMap<&'static str, Resource>) {\n";

/// Closing brace of a generated function.
pub const FUNCTION_END: &'static str = "}\n";

/// Imports at the top of the aggregator file.
pub const AGGREGATOR_USES: &'static str = "use ::std::collections::HashMap;\nuse ::static_files::Resource;\n";

/// Declaration of the shared accumulator in the exported function.
pub const VARIABLE_HEADER: &'static str = "let mut r = HashMap::new();\n";

/// Return of the shared accumulator from the exported function.
pub const VARIABLE_RETURN: &'static str = "r\n";

/// The decimal digit `d`.
pub open spec fn digit_char(d: nat) -> char
    recommends
        d < 10,
{
    seq!['0', '1', '2', '3', '4', '5', '6', '7', '8', '9'][d as int]
}

/// Decimal notation of `n`, without leading zeros.
pub open spec fn decimal(n: nat) -> Seq<char>
    decreases n,
{
    if n < 10 {
        seq![digit_char(n)]
    } else {
        decimal(n / 10) + seq![digit_char(n % 10)]
    }
}

/// Name of the file that holds module `index`.
pub open spec fn set_file_name(index: nat) -> Seq<char> {
    "set_"@ + decimal(index) + ".rs"@
}

/// Declaration of module `index` in the aggregator.
pub open spec fn module_declaration(index: nat) -> Seq<char> {
    "mod set_"@ + decimal(index) + ";\n"@
}

/// Call of module `index`'s generator on the shared accumulator.
pub open spec fn module_call(index: nat) -> Seq<char> {
    "set_"@ + decimal(index) + "::generate(&mut r);\n"@
}

/// Declarations of modules `1..=count`, in ascending order.
pub open spec fn module_declarations(count: nat) -> Seq<char> {
    Seq::new(count, |k: int| module_declaration((k + 1) as nat)).flatten()
}

/// Calls of modules `1..=count`, in ascending order.
pub open spec fn module_calls(count: nat) -> Seq<char> {
    Seq::new(count, |k: int| module_call((k + 1) as nat)).flatten()
}

/// Header of the exported function `fn_name`.
pub open spec fn function_header(fn_name: Seq<char>) -> Seq<char> {
    "pub fn "@ + fn_name + "() -> HashMap<&'static str, Resource> {\n"@
}

/// The aggregator file for `count` modules, exporting `fn_name`.
pub open spec fn aggregator_text(fn_name: Seq<char>, count: nat) -> Seq<char> {
    AGGREGATOR_USES@ + module_declarations(count) + function_header(fn_name) + VARIABLE_HEADER@
        + module_calls(count) + VARIABLE_RETURN@ + FUNCTION_END@
}

/// The root shim: declares the aggregator module and re-exports `fn_name`.
pub open spec fn root_shim_text(module_name: Seq<char>, fn_name: Seq<char>) -> Seq<char> {
    "mod "@ + module_name + ";\npub use "@ + module_name + "::"@ + fn_name + ";\n"@
}

/// A generated module file whose generator function holds `body`.
pub open spec fn set_module_text(body: Seq<char>) -> Seq<char> {
    SET_MODULE_PROLOGUE@ + body + FUNCTION_END@
}

fn push_digit(out: &mut String, d: usize)
    requires
        d < 10,
    ensures
        final(out)@ == old(out)@ + seq![digit_char(d as nat)],
{
    let s: &str = match d {
        0 => "0",
        1 => "1",
        2 => "2",
        3 => "3",
        4 => "4",
        5 => "5",
        6 => "6",
        7 => "7",
        8 => "8",
        _ => "9",
    };
    proof {
        reveal_strlit("0");
        reveal_strlit("1");
        reveal_strlit("2");
        reveal_strlit("3");
        reveal_strlit("4");
        reveal_strlit("5");
        reveal_strlit("6");
        reveal_strlit("7");
        reveal_strlit("8");
        reveal_strlit("9");
        assert(s@ =~= seq![digit_char(d as nat)]);
    }
    out.append(s);
}

fn push_decimal(out: &mut String, n: usize)
    ensures
        final(out)@ == old(out)@ + decimal(n as nat),
    decreases n,
{
    if n < 10 {
        push_digit(out, n);
    } else {
        push_decimal(out, n / 10);
        push_digit(out, n % 10);
        assert(final(out)@ =~= old(out)@ + decimal(n as nat));
    }
}

/// Decimal notation of `n`.
pub fn decimal_string(n: usize) -> (r: String)
    ensures
        r@ == decimal(n as nat),
{
    let mut r = String::new();
    push_decimal(&mut r, n);
    assert(r@ =~= decimal(n as nat));
    r
}

/// Name of the file that holds module `index`, such as `set_3.rs`.
pub fn set_module_file_name(index: usize) -> (r: String)
    ensures
        r@ == set_file_name(index as nat),
{
    let mut r = String::from_str("set_");
    push_decimal(&mut r, index);
    r.append(".rs");
    r
}

/// Text of the root shim that re-exports `fn_name` from `module_name`.
pub fn root_shim_source(module_name: &str, fn_name: &str) -> (r: String)
    ensures
        r@ == root_shim_text(module_name@, fn_name@),
{
    let mut r = String::from_str("mod ");
    r.append(module_name);
    r.append(";\npub use ");
    r.append(module_name);
    r.append("::");
    r.append(fn_name);
    r.append(";\n");
    r
}

/// Text of the aggregator file for `modules_count` modules: it declares
/// `set_1` to `set_<modules_count>`, then defines `fn_name`, which calls each
/// module's generator in ascending order on one shared map and returns it.
pub fn aggregator_source(fn_name: &str, modules_count: usize) -> (r: String)
    ensures
        r@ == aggregator_text(fn_name@, modules_count as nat),
{
    let mut r = String::from_str(AGGREGATOR_USES);
    let ghost head = r@;
    let mut i: usize = 0;
    while i < modules_count
        invariant
            i <= modules_count,
            r@ == head + module_declarations(i as nat),
        decreases modules_count - i,
    {
        let ghost before = r@;
        r.append("mod set_");
        push_decimal(&mut r, i + 1);
        r.append(";\n");
        proof {
            let f = |k: int| module_declaration((k + 1) as nat);
            assert(Seq::new((i + 1) as nat, f) =~= Seq::new(i as nat, f).push(f(i as int)));
            Seq::new(i as nat, f).lemma_flatten_push(f(i as int));
            assert(r@ =~= head + module_declarations((i + 1) as nat));
        }
        i = i + 1;
    }
    r.append("pub fn ");
    r.append(fn_name);
    r.append("() -> HashMap<&'static str, Resource> {\n");
    r.append(VARIABLE_HEADER);
    let ghost middle = r@;
    let mut j: usize = 0;
    while j < modules_count
        invariant
            j <= modules_count,
            r@ == middle + module_calls(j as nat),
        decreases modules_count - j,
    {
        r.append("set_");
        push_decimal(&mut r, j + 1);
        r.append("::generate(&mut r);\n");
        proof {
            let f = |k: int| module_call((k + 1) as nat);
            assert(Seq::new((j + 1) as nat, f) =~= Seq::new(j as nat, f).push(f(j as int)));
            Seq::new(j as nat, f).lemma_flatten_push(f(j as int));
            assert(r@ =~= middle + module_calls((j + 1) as nat));
        }
        j = j + 1;
    }
    r.append(VARIABLE_RETURN);
    r.append(FUNCTION_END);
    assert(r@ =~= aggregator_text(fn_name@, modules_count as nat));
    r
}

} // verus!
