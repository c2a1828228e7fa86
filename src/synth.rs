//! The helper program: its source text and the names of its files.

use vstd::prelude::*;
use crate::text::join_text;

verus! {

/// The decimal digit for `d`, below ten.
pub open spec fn digit_char(d: nat) -> char {
    if d == 0 { '0' } else if d == 1 { '1' } else if d == 2 { '2' } else if d == 3 { '3' }
    else if d == 4 { '4' } else if d == 5 { '5' } else if d == 6 { '6' } else if d == 7 { '7' }
    else if d == 8 { '8' } else { '9' }
}

/// `n` written in decimal, without leading zeros.
pub open spec fn decimal(n: nat) -> Seq<char>
    decreases n,
{
    if n < 10 {
        seq![digit_char(n)]
    } else {
        decimal(n / 10).push(digit_char(n % 10))
    }
}

/// The directory that holds the helper sources, inside the output directory.
pub open spec fn temp_dir(out_dir: Seq<char>) -> Seq<char> {
    out_dir + "/comptime"@
}

/// The helper source file for the disambiguator `salt`.
pub open spec fn source_path(out_dir: Seq<char>, salt: nat) -> Seq<char> {
    temp_dir(out_dir) + "/comptime-"@ + decimal(salt) + ".rs"@
}

/// The helper binary: the helper crate's name with the build's disambiguator.
pub open spec fn binary_path(out_dir: Seq<char>, extra: Seq<char>) -> Seq<char> {
    out_dir + "/comptime_bin"@ + extra
}

/// The helper program for a block: it evaluates the block and prints the result
/// as source tokens, not in its display form.
pub open spec fn helper_program(block: Seq<char>) -> Seq<char> {
    "fn main() { let result = {"@ + block + "}; print!(\"{}\", quote::quote!(#result)) }"@
}

fn digit_text(d: u64) -> (r: &'static str)
    requires
        d < 10,
    ensures
        r@ == seq![digit_char(d as nat)],
{
    proof {
        reveal_strlit("0"); reveal_strlit("1"); reveal_strlit("2"); reveal_strlit("3");
        reveal_strlit("4"); reveal_strlit("5"); reveal_strlit("6"); reveal_strlit("7");
        reveal_strlit("8"); reveal_strlit("9");
    }
    let r = if d == 0 { "0" } else if d == 1 { "1" } else if d == 2 { "2" } else if d == 3 { "3" }
        else if d == 4 { "4" } else if d == 5 { "5" } else if d == 6 { "6" } else if d == 7 { "7" }
        else if d == 8 { "8" } else { "9" };
    assert(r@ =~= seq![digit_char(d as nat)]);
    r
}

/// Returns `n` written in decimal.
pub fn decimal_text(n: u64) -> (r: String)
    ensures
        r@ == decimal(n as nat),
    decreases n,
{
    if n < 10 {
        digit_text(n).to_string()
    } else {
        let high = decimal_text(n / 10);
        let r = join_text(high.as_str(), digit_text(n % 10));
        assert(r@ =~= decimal((n / 10) as nat).push(digit_char((n % 10) as nat)));
        r
    }
}

proof fn lemma_decimal_len(n: nat)
    ensures
        decimal(n).len() >= 1,
        n >= 10 ==> decimal(n).len() >= 2,
    decreases n,
{
    if n >= 10 {
        lemma_decimal_len(n / 10);
    }
}

proof fn lemma_digit_injective(x: nat, y: nat)
    requires
        x < 10,
        y < 10,
        digit_char(x) == digit_char(y),
    ensures
        x == y,
{
}

/// Distinct numbers are written differently.
pub proof fn lemma_decimal_injective(a: nat, b: nat)
    requires
        decimal(a) == decimal(b),
    ensures
        a == b,
    decreases a,
{
    lemma_decimal_len(a);
    lemma_decimal_len(b);
    if a >= 10 && b >= 10 {
        let da = decimal(a);
        let db = decimal(b);
        assert(da.drop_last() == decimal(a / 10));
        assert(db.drop_last() == decimal(b / 10));
        lemma_decimal_injective(a / 10, b / 10);
        assert(da.last() == digit_char(a % 10));
        assert(db.last() == digit_char(b % 10));
        lemma_digit_injective(a % 10, b % 10);
        assert(a == 10 * (a / 10) + a % 10) by (nonlinear_arith);
        assert(b == 10 * (b / 10) + b % 10) by (nonlinear_arith);
    } else if a < 10 && b < 10 {
        assert(decimal(a) == seq![digit_char(a)]);
        assert(decimal(b) == seq![digit_char(b)]);
        assert(decimal(a)[0] == digit_char(a));
        assert(decimal(b)[0] == digit_char(b));
        lemma_digit_injective(a, b);
    }
}

/// Helper sources of different disambiguators never share a path: two
/// evaluations collide on a source file only if their disambiguators are equal.
pub proof fn law_source_paths_distinct(out_dir: Seq<char>, a: nat, b: nat)
    requires
        source_path(out_dir, a) == source_path(out_dir, b),
    ensures
        a == b,
{
    let p = temp_dir(out_dir) + "/comptime-"@;
    let s = ".rs"@;
    let pa = source_path(out_dir, a);
    assert(pa == p + decimal(a) + s);
    assert(source_path(out_dir, b) == p + decimal(b) + s);
    assert(decimal(a).len() == decimal(b).len());
    assert(decimal(a) =~= pa.subrange(p.len() as int, (p.len() + decimal(a).len()) as int));
    assert(decimal(b) =~= pa.subrange(p.len() as int, (p.len() + decimal(b).len()) as int));
    lemma_decimal_injective(a, b);
}

/// Returns the directory that holds the helper sources.
pub fn temp_dir_of(out_dir: &str) -> (r: String)
    ensures
        r@ == temp_dir(out_dir@),
{
    join_text(out_dir, "/comptime")
}

/// Returns the path of the helper source for the disambiguator `salt`.
pub fn source_path_of(out_dir: &str, salt: u64) -> (r: String)
    ensures
        r@ == source_path(out_dir@, salt as nat),
{
    let dir = temp_dir_of(out_dir);
    let a = join_text(dir.as_str(), "/comptime-");
    let d = decimal_text(salt);
    let b = join_text(a.as_str(), d.as_str());
    join_text(b.as_str(), ".rs")
}

/// Returns the path of the helper binary.
pub fn binary_path_of(out_dir: &str, extra: &str) -> (r: String)
    ensures
        r@ == binary_path(out_dir@, extra@),
{
    let a = join_text(out_dir, "/comptime_bin");
    join_text(a.as_str(), extra)
}

/// Returns the source of the helper program for a block.
pub fn helper_program_text(block: &str) -> (r: String)
    ensures
        r@ == helper_program(block@),
{
    let a = join_text("fn main() { let result = {", block);
    join_text(a.as_str(), "}; print!(\"{}\", quote::quote!(#result)) }")
}

} // verus!
