//! Text forms: dotted-quad IPv4 addresses and host names.

use vstd::prelude::*;
use vstd::string::*;

verus! {

/// The character for a decimal digit.
pub open spec fn digit_char(d: nat) -> char {
    if d == 0 {
        '0'
    } else if d == 1 {
        '1'
    } else if d == 2 {
        '2'
    } else if d == 3 {
        '3'
    } else if d == 4 {
        '4'
    } else if d == 5 {
        '5'
    } else if d == 6 {
        '6'
    } else if d == 7 {
        '7'
    } else if d == 8 {
        '8'
    } else {
        '9'
    }
}

/// A number in decimal, without leading zeros.
pub open spec fn decimal_text(n: nat) -> Seq<char>
    decreases n,
{
    if n < 10 {
        seq![digit_char(n)]
    } else {
        decimal_text(n / 10).push(digit_char(n % 10))
    }
}

/// The octet of an IPv4 address at `index`, counted from the most
/// significant one.
pub open spec fn octet(bits: u32, index: nat) -> nat {
    if index == 0 {
        (bits / 0x100_0000) as nat
    } else if index == 1 {
        ((bits / 0x1_0000) % 0x100) as nat
    } else if index == 2 {
        ((bits / 0x100) % 0x100) as nat
    } else {
        (bits % 0x100) as nat
    }
}

/// An IPv4 address in dotted-quad notation: its four octets in decimal,
/// joined by dots.
pub open spec fn dotted_quad(bits: u32) -> Seq<char> {
    decimal_text(octet(bits, 0)) + seq!['.'] + decimal_text(octet(bits, 1)) + seq!['.']
        + decimal_text(octet(bits, 2)) + seq!['.'] + decimal_text(octet(bits, 3))
}

/// Characters that a host name may hold.
pub open spec fn is_host_char(c: char) -> bool {
    ('a' <= c && c <= 'z') || ('A' <= c && c <= 'Z') || ('0' <= c && c <= '9') || c == '-' || c
        == '.' || c == '_'
}

/// A host name is one to 253 letters, digits, hyphens, underscores and dots.
pub open spec fn is_hostname(text: Seq<char>) -> bool {
    1 <= text.len() <= 253 && forall|i: int| 0 <= i < text.len() ==> is_host_char(#[trigger] text[i])
}

/// The digit that a character stands for.
pub open spec fn digit_value(c: char) -> nat {
    if c == '0' {
        0
    } else if c == '1' {
        1
    } else if c == '2' {
        2
    } else if c == '3' {
        3
    } else if c == '4' {
        4
    } else if c == '5' {
        5
    } else if c == '6' {
        6
    } else if c == '7' {
        7
    } else if c == '8' {
        8
    } else {
        9
    }
}

/// The number that up to three decimal digits spell.
pub open spec fn octet_value(text: Seq<char>) -> nat {
    if text.len() == 1 {
        digit_value(text[0])
    } else if text.len() == 2 {
        10 * digit_value(text[0]) + digit_value(text[1])
    } else {
        100 * digit_value(text[0]) + 10 * digit_value(text[1]) + digit_value(text[2])
    }
}

/// The decimal text of an octet has one to three characters, none of them
/// a dot, and spells the octet.
pub proof fn lemma_octet_text(n: nat)
    requires
        n < 256,
    ensures
        1 <= decimal_text(n).len() <= 3,
        forall|i: int| 0 <= i < decimal_text(n).len() ==> #[trigger] decimal_text(n)[i] != '.',
        octet_value(decimal_text(n)) == n,
{
    reveal_with_fuel(decimal_text, 3);
    if n >= 100 {
        assert(decimal_text(n) =~= seq![
            digit_char(n / 100),
            digit_char((n / 10) % 10),
            digit_char(n % 10),
        ]);
    } else if n >= 10 {
        assert(decimal_text(n) =~= seq![digit_char(n / 10), digit_char(n % 10)]);
    } else {
        assert(decimal_text(n) =~= seq![digit_char(n)]);
    }
}

/// Two texts that each start with a run free of dots, then a dot, agree
/// only if the runs agree and what follows the dots agrees.
pub proof fn lemma_split_at_dot(
    head_a: Seq<char>,
    rest_a: Seq<char>,
    head_b: Seq<char>,
    rest_b: Seq<char>,
)
    requires
        forall|i: int| 0 <= i < head_a.len() ==> #[trigger] head_a[i] != '.',
        forall|i: int| 0 <= i < head_b.len() ==> #[trigger] head_b[i] != '.',
        head_a + seq!['.'] + rest_a == head_b + seq!['.'] + rest_b,
    ensures
        head_a == head_b,
        rest_a == rest_b,
{
    let a = head_a + seq!['.'] + rest_a;
    let b = head_b + seq!['.'] + rest_b;
    assert(a[head_a.len() as int] == '.');
    assert(b[head_b.len() as int] == '.');
    if head_a.len() < head_b.len() {
        assert(b[head_a.len() as int] == head_b[head_a.len() as int]);
    }
    if head_b.len() < head_a.len() {
        assert(a[head_b.len() as int] == head_a[head_b.len() as int]);
    }
    assert(head_a =~= head_b) by {
        assert forall|i: int| 0 <= i < head_a.len() implies head_a[i] == head_b[i] by {
            assert(a[i] == head_a[i]);
            assert(b[i] == head_b[i]);
        }
    }
    assert(rest_a =~= rest_b) by {
        assert(a.len() == b.len());
        assert forall|i: int| 0 <= i < rest_a.len() implies rest_a[i] == rest_b[i] by {
            assert(a[head_a.len() + 1 + i] == rest_a[i]);
            assert(b[head_b.len() + 1 + i] == rest_b[i]);
        }
    }
}

/// The text of four runs joined by dots.
pub open spec fn joined(parts: (Seq<char>, Seq<char>, Seq<char>, Seq<char>)) -> Seq<char> {
    parts.0 + seq!['.'] + parts.1 + seq!['.'] + parts.2 + seq!['.'] + parts.3
}

/// Four runs free of dots can be read back from their joined text.
pub proof fn lemma_joined_injective(
    a: (Seq<char>, Seq<char>, Seq<char>, Seq<char>),
    b: (Seq<char>, Seq<char>, Seq<char>, Seq<char>),
)
    requires
        forall|i: int| 0 <= i < a.0.len() ==> #[trigger] a.0[i] != '.',
        forall|i: int| 0 <= i < a.1.len() ==> #[trigger] a.1[i] != '.',
        forall|i: int| 0 <= i < a.2.len() ==> #[trigger] a.2[i] != '.',
        forall|i: int| 0 <= i < b.0.len() ==> #[trigger] b.0[i] != '.',
        forall|i: int| 0 <= i < b.1.len() ==> #[trigger] b.1[i] != '.',
        forall|i: int| 0 <= i < b.2.len() ==> #[trigger] b.2[i] != '.',
        joined(a) == joined(b),
    ensures
        a == b,
{
    let dot = seq!['.'];
    assert(joined(a) =~= a.0 + dot + (a.1 + dot + (a.2 + dot + a.3)));
    assert(joined(b) =~= b.0 + dot + (b.1 + dot + (b.2 + dot + b.3)));
    lemma_split_at_dot(a.0, a.1 + dot + (a.2 + dot + a.3), b.0, b.1 + dot + (b.2 + dot + b.3));
    lemma_split_at_dot(a.1, a.2 + dot + a.3, b.1, b.2 + dot + b.3);
    lemma_split_at_dot(a.2, a.3, b.2, b.3);
}

/// An IPv4 address is determined by its four octets.
pub proof fn lemma_octets_determine(a: u32, b: u32)
    requires
        forall|i: nat| i < 4 ==> octet(a, i) == octet(b, i),
    ensures
        a == b,
{
    assert(octet(a, 0) == octet(b, 0));
    assert(octet(a, 1) == octet(b, 1));
    assert(octet(a, 2) == octet(b, 2));
    assert(octet(a, 3) == octet(b, 3));
}

/// Different IPv4 addresses have different dotted-quad texts.
pub proof fn lemma_dotted_quad_injective(a: u32, b: u32)
    requires
        dotted_quad(a) == dotted_quad(b),
    ensures
        a == b,
{
    let ta = (
        decimal_text(octet(a, 0)),
        decimal_text(octet(a, 1)),
        decimal_text(octet(a, 2)),
        decimal_text(octet(a, 3)),
    );
    let tb = (
        decimal_text(octet(b, 0)),
        decimal_text(octet(b, 1)),
        decimal_text(octet(b, 2)),
        decimal_text(octet(b, 3)),
    );
    lemma_octet_text(octet(a, 0));
    lemma_octet_text(octet(a, 1));
    lemma_octet_text(octet(a, 2));
    lemma_octet_text(octet(a, 3));
    lemma_octet_text(octet(b, 0));
    lemma_octet_text(octet(b, 1));
    lemma_octet_text(octet(b, 2));
    lemma_octet_text(octet(b, 3));
    assert(dotted_quad(a) == joined(ta));
    assert(dotted_quad(b) == joined(tb));
    lemma_joined_injective(ta, tb);
    lemma_octets_determine(a, b);
}

fn digit_str(d: u8) -> (s: &'static str)
    requires
        d < 10,
    ensures
        s@ == seq![digit_char(d as nat)],
{
    proof {
        reveal_strlit("0");
        reveal_strlit("1");
        reveal_strlit("2");
        reveal_strlit("3");
        reveal_strlit("4");
        reveal_strlit("5");
        reveal_strlit("6");
        reveal_strlit("7");
        reveal_strlit("8");
        reveal_strlit("9");
    }
    let s = if d == 0 {
        "0"
    } else if d == 1 {
        "1"
    } else if d == 2 {
        "2"
    } else if d == 3 {
        "3"
    } else if d == 4 {
        "4"
    } else if d == 5 {
        "5"
    } else if d == 6 {
        "6"
    } else if d == 7 {
        "7"
    } else if d == 8 {
        "8"
    } else {
        "9"
    };
    assert(s@ =~= seq![digit_char(d as nat)]);
    s
}

fn push_octet(out: &mut String, n: u8)
    ensures
        final(out)@ == old(out)@ + decimal_text(n as nat),
{
    proof {
        reveal_with_fuel(decimal_text, 3);
    }
    if n >= 100 {
        out.append(digit_str(n / 100));
    }
    if n >= 10 {
        out.append(digit_str((n / 10) % 10));
    }
    out.append(digit_str(n % 10));
    assert(out@ =~= old(out)@ + decimal_text(n as nat));
}

/// Writes an IPv4 address in dotted-quad notation.
pub fn format_v4(bits: u32) -> (s: String)
    ensures
        s@ == dotted_quad(bits),
{
    proof {
        reveal_strlit(".");
    }
    let mut s = String::new();
    push_octet(&mut s, (bits / 0x100_0000) as u8);
    s.append(".");
    push_octet(&mut s, ((bits / 0x1_0000) % 0x100) as u8);
    s.append(".");
    push_octet(&mut s, ((bits / 0x100) % 0x100) as u8);
    s.append(".");
    push_octet(&mut s, (bits % 0x100) as u8);
    assert(s@ =~= dotted_quad(bits));
    s
}

/// Whether a character may stand in a host name.
pub fn host_char(c: char) -> (ok: bool)
    ensures
        ok == is_host_char(c),
{
    (c >= 'a' && c <= 'z') || (c >= 'A' && c <= 'Z') || (c >= '0' && c <= '9') || c == '-' || c
        == '.' || c == '_'
}

/// Whether a text is a host name.
pub fn hostname(text: &str) -> (ok: bool)
    ensures
        ok == is_hostname(text@),
{
    let n: usize = text.unicode_len();
    if n == 0 || n > 253 {
        return false;
    }
    let mut i: usize = 0;
    while i < n
        invariant
            n == text@.len(),
            i <= n,
            forall|j: int| 0 <= j < i ==> is_host_char(#[trigger] text@[j]),
        decreases n - i,
    {
        if !host_char(text.get_char(i)) {
            return false;
        }
        i += 1;
    }
    true
}

} // verus!
