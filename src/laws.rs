//! Properties that relate several operations of the assembler.
use vstd::prelude::*;

use crate::error::Fault;
use crate::instruction::{encoded, hex_digit, instruction_of, instruction_of_line, Instruction};
use crate::operand::{Immediate, MemoryAddress, Register};
use crate::overroot::{join, subst_all, substituted_line};
use crate::symbols::subst;
use crate::text::{flush, is_ws, tokens, tokens_from};
use crate::operand::{all_digits, digit_of, digits_value, immediate_value, register_number};

verus! {

/// Each register mnemonic names its documented number, and a register's long
/// and short mnemonic name the same one.
pub proof fn register_numbers()
    ensures
        register_number("Acc"@) == Some(0u8) && register_number("A"@) == Some(0u8),
        register_number("Bacc"@) == Some(1u8) && register_number("B"@) == Some(1u8),
        register_number("Carr"@) == Some(2u8) && register_number("C"@) == Some(2u8),
        register_number("Datt"@) == Some(3u8) && register_number("D"@) == Some(3u8),
        register_number("E"@) == Some(4u8),
        register_number("F"@) == Some(5u8),
        register_number("G"@) == Some(6u8),
        register_number("H"@) == Some(7u8),
{
    reveal_strlit("Acc");
    reveal_strlit("A");
    reveal_strlit("Bacc");
    reveal_strlit("B");
    reveal_strlit("Carr");
    reveal_strlit("C");
    reveal_strlit("Datt");
    reveal_strlit("D");
    reveal_strlit("E");
    reveal_strlit("F");
    reveal_strlit("G");
    reveal_strlit("H");
    assert("B"@[0] != "A"@[0]);
    assert("Carr"@[0] != "Bacc"@[0]);
    assert("C"@[0] != "A"@[0]);
    assert("C"@[0] != "B"@[0]);
    assert("Datt"@[0] != "Bacc"@[0]);
    assert("Datt"@[0] != "Carr"@[0]);
    assert("D"@[0] != "A"@[0]);
    assert("D"@[0] != "B"@[0]);
    assert("D"@[0] != "C"@[0]);
    assert("E"@[0] != "A"@[0]);
    assert("E"@[0] != "B"@[0]);
    assert("E"@[0] != "C"@[0]);
    assert("E"@[0] != "D"@[0]);
    assert("F"@[0] != "A"@[0]);
    assert("F"@[0] != "B"@[0]);
    assert("F"@[0] != "C"@[0]);
    assert("F"@[0] != "D"@[0]);
    assert("F"@[0] != "E"@[0]);
    assert("G"@[0] != "A"@[0]);
    assert("G"@[0] != "B"@[0]);
    assert("G"@[0] != "C"@[0]);
    assert("G"@[0] != "D"@[0]);
    assert("G"@[0] != "E"@[0]);
    assert("G"@[0] != "F"@[0]);
    assert("H"@[0] != "A"@[0]);
    assert("H"@[0] != "B"@[0]);
    assert("H"@[0] != "C"@[0]);
    assert("H"@[0] != "D"@[0]);
    assert("H"@[0] != "E"@[0]);
    assert("H"@[0] != "F"@[0]);
    assert("H"@[0] != "G"@[0]);
}

/// Every register number lies in `0..8`.
pub proof fn register_number_in_range(t: Seq<char>)
    ensures
        register_number(t) matches Some(n) ==> n < 8,
{
}

/// `n` written in base `radix` with upper-case digits and no leading zeros,
/// as `format!("{n}")` and `format!("{n:X}")` write it.
pub open spec fn radix_text(n: nat, radix: nat) -> Seq<char>
    recommends
        2 <= radix <= 16,
    decreases n
    via radix_text_decreases

{
    if n < radix || radix < 2 {
        seq![hex_digit(n as u8)]
    } else {
        radix_text(n / radix, radix).push(hex_digit((n % radix) as u8))
    }
}

#[via_fn]
proof fn radix_text_decreases(n: nat, radix: nat) {
    if !(n < radix || radix < 2) {
        assert(n / radix < n) by (nonlinear_arith)
            requires
                n >= radix,
                radix >= 2,
        ;
    }
}

proof fn lemma_radix_text(n: nat, radix: nat)
    requires
        radix == 10 || radix == 16,
        n < 256,
    ensures
        radix_text(n, radix).len() > 0,
        radix_text(n, radix)[0] != '+',
        radix_text(n, radix).last() != 'h',
        all_digits(radix_text(n, radix), radix),
        digits_value(radix_text(n, radix), radix) == n,
    decreases n,
{
    let t = radix_text(n, radix);
    if n < radix {
        assert(t == seq![hex_digit(n as u8)]);
        assert(t.len() == 1);
        assert(t.drop_last() =~= Seq::<char>::empty());
        assert(digit_of(t[0], radix) == Some(n));
        assert(digits_value(Seq::<char>::empty(), radix) == 0);
    } else {
        let q = n / radix;
        let d = n % radix;
        lemma_radix_text(q, radix);
        let p = radix_text(q, radix);
        assert(t == p.push(hex_digit(d as u8)));
        assert(t.drop_last() =~= p);
        assert(digit_of(t.last(), radix) == Some(d));
        assert forall|i: int| 0 <= i < t.len() implies (#[trigger] digit_of(t[i], radix)) is Some by {
            if i < p.len() {
                assert(t[i] == p[i]);
            }
        }
        assert(t[0] == p[0]);
        if radix == 10 {
            assert(q * 10 + d == n);
        } else {
            assert(q * 16 + d == n);
        }
    }
}

/// Every byte, written in decimal, reads back as an immediate literal; so
/// does every byte written in upper-case hexadecimal and followed by `h`.
pub proof fn immediate_round_trip(n: u8)
    ensures
        immediate_value(radix_text(n as nat, 10)) == Some(n),
        immediate_value(radix_text(n as nat, 16).push('h')) == Some(n),
{
    lemma_radix_text(n as nat, 10);
    lemma_radix_text(n as nat, 16);
    assert(radix_text(n as nat, 16).push('h').drop_last() =~= radix_text(n as nat, 16));
}

/// Substituting the tokens of a line once replaces each bound name by its
/// value, and nothing more; substituting the result again changes nothing,
/// as long as no value is itself bound to something else.
pub proof fn substitution_idempotent(m: Map<Seq<char>, Seq<char>>, ts: Seq<Seq<char>>)
    requires
        forall|i: int|
            0 <= i < ts.len() && m.contains_key(#[trigger] ts[i]) ==> !m.contains_key(m[ts[i]])
                || m[m[ts[i]]] == m[ts[i]],
    ensures
        subst_all(m, ts).len() == ts.len(),
        forall|i: int| 0 <= i < ts.len() ==> #[trigger] subst_all(m, ts)[i] == subst(m, ts[i]),
        subst_all(m, subst_all(m, ts)) == subst_all(m, ts),
{
    let once = subst_all(m, ts);
    assert forall|i: int| 0 <= i < ts.len() implies #[trigger] subst_all(m, once)[i] == once[i] by {
        assert(once[i] == subst(m, ts[i]));
    }
    assert(subst_all(m, once) =~= once);
}

/// The mnemonics `adl`, `asn` and `load` build from valid operands, and no
/// instruction of theirs encodes.
pub proof fn unassigned_operations(r: Seq<char>, a: Seq<char>, v: Seq<char>)
    ensures
        forall|x: Register, y: MemoryAddress| #[trigger]
            encoded(Instruction::Adl(x, y)) == Err::<Seq<char>, Fault>(
                Fault::UnimplementedOperation(Instruction::Adl(x, y)),
            ),
        forall|x: MemoryAddress, y: Immediate| #[trigger]
            encoded(Instruction::Asn(x, y)) == Err::<Seq<char>, Fault>(
                Fault::UnimplementedOperation(Instruction::Asn(x, y)),
            ),
        forall|x: Register, y: MemoryAddress| #[trigger]
            encoded(Instruction::Load(x, y)) == Err::<Seq<char>, Fault>(
                Fault::UnimplementedOperation(Instruction::Load(x, y)),
            ),
        register_number(r) is Some && immediate_value(a) is Some ==> instruction_of("adl"@, r, a)
            == Ok::<Instruction, Fault>(
            Instruction::Adl(
                Register { reg_id: register_number(r)->0 },
                MemoryAddress { address: immediate_value(a)->0 },
            ),
        ),
        immediate_value(a) is Some && immediate_value(v) is Some ==> instruction_of("asn"@, a, v)
            == Ok::<Instruction, Fault>(
            Instruction::Asn(
                MemoryAddress { address: immediate_value(a)->0 },
                Immediate { literal: immediate_value(v)->0 },
            ),
        ),
        register_number(r) is Some && immediate_value(a) is Some ==> instruction_of("load"@, r, a)
            == Ok::<Instruction, Fault>(
            Instruction::Load(
                Register { reg_id: register_number(r)->0 },
                MemoryAddress { address: immediate_value(a)->0 },
            ),
        ),
{
    reveal_strlit("init");
    reveal_strlit("copy");
    reveal_strlit("adcp");
    reveal_strlit("str");
    reveal_strlit("adl");
    reveal_strlit("asn");
    reveal_strlit("load");
    assert("adl"@[0] != "init"@[0]);
    assert("adl"@[0] != "copy"@[0]);
    assert("adl"@.len() != "adcp"@.len());
    assert("adl"@[0] != "str"@[0]);
    assert("asn"@[0] != "init"@[0]);
    assert("asn"@[0] != "copy"@[0]);
    assert("asn"@[1] != "adcp"@[1]);
    assert("asn"@[0] != "str"@[0]);
    assert("asn"@[1] != "adl"@[1]);
    assert("load"@[0] != "init"@[0]);
    assert("load"@[0] != "copy"@[0]);
    assert("load"@[0] != "adcp"@[0]);
}

/// A line whose mnemonic is none of the table's is refused with that token.
pub proof fn unknown_operation_refused(line: Seq<char>)
    requires
        tokens(line).len() == 3,
        tokens(line)[0] != "init"@ && tokens(line)[0] != "copy"@ && tokens(line)[0] != "adcp"@
            && tokens(line)[0] != "str"@ && tokens(line)[0] != "adl"@ && tokens(line)[0]
            != "asn"@ && tokens(line)[0] != "load"@,
    ensures
        instruction_of_line(line) == Err::<Instruction, Fault>(
            Fault::InvalidOperation(tokens(line)[0]),
        ),
{
}

/// A piece of text that `tokens` keeps whole: not empty, no whitespace.
pub open spec fn is_token(w: Seq<char>) -> bool {
    w.len() > 0 && forall|i: int| 0 <= i < w.len() ==> !is_ws(#[trigger] w[i])
}

proof fn lemma_word(w: Seq<char>, s: Seq<char>, cur: Seq<char>)
    requires
        forall|i: int| 0 <= i < w.len() ==> !is_ws(#[trigger] w[i]),
    ensures
        tokens_from(w + s, cur) == tokens_from(s, cur + w),
    decreases w.len(),
{
    if w.len() == 0 {
        assert(w + s =~= s);
        assert(cur + w =~= cur);
    } else {
        let rest = w.drop_first();
        assert((w + s).drop_first() =~= rest + s);
        assert((w + s)[0] == w[0]);
        assert forall|i: int| 0 <= i < rest.len() implies !is_ws(#[trigger] rest[i]) by {
            assert(rest[i] == w[i + 1]);
        }
        lemma_word(rest, s, cur.push(w[0]));
        assert(cur.push(w[0]) + rest =~= cur + w);
    }
}

proof fn lemma_tokens_are_tokens(s: Seq<char>, cur: Seq<char>)
    requires
        forall|i: int| 0 <= i < cur.len() ==> !is_ws(#[trigger] cur[i]),
    ensures
        forall|k: int| 0 <= k < tokens_from(s, cur).len() ==> is_token(#[trigger] tokens_from(s, cur)[k]),
    decreases s.len(),
{
    if s.len() == 0 {
        if cur.len() > 0 {
            assert(flush(cur)[0] == cur);
        }
    } else if is_ws(s[0]) {
        lemma_tokens_are_tokens(s.drop_first(), seq![]);
        let a = flush(cur);
        let b = tokens_from(s.drop_first(), seq![]);
        assert(tokens_from(s, cur) == a + b);
        assert forall|k: int| 0 <= k < (a + b).len() implies is_token(#[trigger] (a + b)[k]) by {
            if k >= a.len() {
                assert((a + b)[k] == b[k - a.len()]);
            } else {
                assert((a + b)[k] == cur);
            }
        }
    } else {
        let c2 = cur.push(s[0]);
        assert forall|i: int| 0 <= i < c2.len() implies !is_ws(#[trigger] c2[i]) by {
            if i < cur.len() {
                assert(c2[i] == cur[i]);
            }
        }
        lemma_tokens_are_tokens(s.drop_first(), c2);
        assert(tokens_from(s, cur) == tokens_from(s.drop_first(), c2));
    }
}

proof fn lemma_three_tokens(a: Seq<char>, b: Seq<char>, c: Seq<char>)
    requires
        is_token(a),
        is_token(b),
        is_token(c),
    ensures
        tokens(join(seq![a, b, c])) == seq![a, b, c],
{
    let sp = seq![' '];
    assert(is_ws(' '));
    assert(seq![a, b, c].drop_last() =~= seq![a, b]);
    assert(seq![a, b].drop_last() =~= seq![a]);
    let j = join(seq![a, b, c]);
    assert(join(seq![a]) == a);
    assert(join(seq![a, b]) == join(seq![a]) + sp + b);
    assert(j == join(seq![a, b]) + sp + c);
    assert(j =~= a + (sp + (b + (sp + c))));
    let e = Seq::<char>::empty();
    lemma_word(a, sp + (b + (sp + c)), e);
    assert(e + a =~= a);
    assert((sp + (b + (sp + c))).drop_first() =~= b + (sp + c));
    lemma_word(b, sp + c, e);
    assert(e + b =~= b);
    assert((sp + c).drop_first() =~= c);
    lemma_word(c, e, e);
    assert(c + e =~= c);
    assert(e + c =~= c);
    assert(tokens_from(b + (sp + c), e) =~= seq![b] + tokens_from(c, e));
    assert(tokens(j) =~= seq![a] + (seq![b] + seq![c]));
}

/// A line that names a constant bound to a single token builds the same
/// instruction as the line with the token written in its place.
pub proof fn constant_substitution_transparent(
    m: Map<Seq<char>, Seq<char>>,
    name: Seq<char>,
    line: Seq<char>,
    written: Seq<char>,
)
    requires
        m.contains_key(name),
        is_token(m[name]),
        tokens(line).len() == 3,
        tokens(line)[1] == name,
        !m.contains_key(tokens(line)[0]),
        !m.contains_key(tokens(line)[2]),
        tokens(written) == seq![tokens(line)[0], m[name], tokens(line)[2]],
    ensures
        instruction_of_line(substituted_line(m, line)) == instruction_of_line(written),
{
    let t = tokens(line);
    lemma_tokens_are_tokens(line, seq![]);
    assert(is_token(t[0]));
    assert(is_token(t[2]));
    assert(subst_all(m, t) =~= seq![t[0], m[name], t[2]]);
    lemma_three_tokens(t[0], m[name], t[2]);
}

} // verus!
