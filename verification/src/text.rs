//! Device source text: decimal numbers and `const` declarations.
use vstd::prelude::*;

verus! {

/// The character of a decimal digit.
pub open spec fn digit_char(d: nat) -> char {
    if d == 0 { '0' }
    else if d == 1 { '1' }
    else if d == 2 { '2' }
    else if d == 3 { '3' }
    else if d == 4 { '4' }
    else if d == 5 { '5' }
    else if d == 6 { '6' }
    else if d == 7 { '7' }
    else if d == 8 { '8' }
    else { '9' }
}

/// The decimal spelling of a number, most significant digit first, with no leading zero.
pub open spec fn decimal(n: nat) -> Seq<char>
    decreases n,
{
    if n < 10 {
        seq![digit_char(n)]
    } else {
        decimal(n / 10).push(digit_char(n % 10))
    }
}

/// The declaration `const NAME: u32 = VALUEu;` on a line of its own.
pub open spec fn const_line(name: Seq<char>, value: nat) -> Seq<char> {
    "const "@ + name + ": u32 = "@ + decimal(value) + "u;\n"@
}

fn digit_text(d: u64) -> (r: &'static str)
    requires
        d < 10,
    ensures
        r@ == seq![digit_char(d as nat)],
{
    proof {
        reveal_strlit("0");
        reveal_strlit("1");
        reveal_strlit("2");
        reveal_strlit("3");
        reveal_strlit("4");
        reveal_strlit("5");
        reveal_strlit("6");
        reveal_strlit("7");
        reveal_strlit("8");
        reveal_strlit("9");
    }
    if d == 0 {
        "0"
    } else if d == 1 {
        "1"
    } else if d == 2 {
        "2"
    } else if d == 3 {
        "3"
    } else if d == 4 {
        "4"
    } else if d == 5 {
        "5"
    } else if d == 6 {
        "6"
    } else if d == 7 {
        "7"
    } else if d == 8 {
        "8"
    } else {
        "9"
    }
}

/// Appends the decimal spelling of `n`.
pub fn push_decimal(out: &mut String, n: u64)
    ensures
        final(out)@ == old(out)@ + decimal(n as nat),
    decreases n,
{
    if n >= 10 {
        push_decimal(out, n / 10);
    }
    out.append(digit_text(n % 10));
    proof {
        if n >= 10 {
            assert(old(out)@ + decimal(n as nat) =~= old(out)@ + decimal((n / 10) as nat)
                + seq![digit_char((n % 10) as nat)]);
        } else {
            assert((n % 10) == n);
        }
    }
}

/// Appends `const NAME: u32 = VALUEu;` and a line break.
pub fn push_const(out: &mut String, name: &str, value: u64)
    ensures
        final(out)@ == old(out)@ + const_line(name@, value as nat),
{
    proof {
        reveal_strlit("const ");
        reveal_strlit(": u32 = ");
        reveal_strlit("u;\n");
    }
    out.append("const ");
    out.append(name);
    out.append(": u32 = ");
    push_decimal(out, value);
    out.append("u;\n");
    proof {
        assert(out@ =~= old(out)@ + const_line(name@, value as nat));
    }
}

/// Appends `const PREFIXINDEX: u32 = VALUEu;` and a line break.
pub fn push_indexed_const(out: &mut String, prefix: &str, index: u64, value: u64)
    ensures
        final(out)@ == old(out)@ + const_line(prefix@ + decimal(index as nat), value as nat),
{
    proof {
        reveal_strlit("const ");
        reveal_strlit(": u32 = ");
        reveal_strlit("u;\n");
    }
    out.append("const ");
    out.append(prefix);
    push_decimal(out, index);
    out.append(": u32 = ");
    push_decimal(out, value);
    out.append("u;\n");
    proof {
        assert(out@ =~= old(out)@ + const_line(prefix@ + decimal(index as nat), value as nat));
    }
}

} // verus!
