//! The canonical text can be read back: different values have different
//! texts.
//!
//! Each kind of text here is self-delimiting: where two texts, each followed
//! by anything, make up the same characters, the two values are the same and
//! so is what follows them. A numeral is so only before a character that is
//! no digit, which is where the canonical text puts it.

use vstd::prelude::*;
use crate::condition::{LockView, PkhConditionView};
use crate::encoding::{
    array_tail, condition_json, entry_json, entry_texts, escaped_char, escaped_text, json_array,
    json_string_text, key_texts, lock_json, note_json, output_json, output_texts, payload_json,
    seeds_json, spend_json, spend_texts, transaction_json,
};
use crate::note::{NoteView, OutputView};
use crate::seeds::SeedsView;
use crate::transaction::{SpendView, TransactionView};
use crate::text::{decimal_digits, digit_char, hex_digit_char, lemma_hex_digit_char_injective};

verus! {

/// What follows the same beginning is the same.
pub proof fn lemma_same_beginning(start: Seq<char>, a: Seq<char>, b: Seq<char>)
    requires
        start + a == start + b,
    ensures
        a == b,
{
    assert(a =~= (start + a).skip(start.len() as int));
    assert(b =~= (start + b).skip(start.len() as int));
}

/// Whether `c` is a decimal digit.
pub open spec fn is_digit(c: char) -> bool {
    exists|d: nat| d < 10 && c == digit_char(d)
}

/// Different digits have different characters.
pub proof fn lemma_digit_char_injective(x: nat, y: nat)
    requires
        x < 10,
        y < 10,
        digit_char(x) == digit_char(y),
    ensures
        x == y,
{
}

/// A numeral is made of digits.
pub proof fn lemma_decimal_digits_are_digits(n: nat)
    ensures
        decimal_digits(n).len() >= 1,
        forall|k: int| 0 <= k < decimal_digits(n).len() ==> is_digit(#[trigger] decimal_digits(n)[k]),
        n >= 10 ==> decimal_digits(n).len() >= 2,
    decreases n,
{
    if n < 10 {
        assert(is_digit(digit_char(n)));
    } else {
        lemma_decimal_digits_are_digits(n / 10);
        assert(is_digit(digit_char(n % 10)));
    }
}

/// Different numbers have different numerals.
pub proof fn lemma_decimal_digits_injective(n: nat, m: nat)
    requires
        decimal_digits(n) == decimal_digits(m),
    ensures
        n == m,
    decreases n,
{
    lemma_decimal_digits_are_digits(n);
    lemma_decimal_digits_are_digits(m);
    if n < 10 && m < 10 {
        assert(decimal_digits(n)[0] == digit_char(n));
        assert(decimal_digits(m)[0] == digit_char(m));
        lemma_digit_char_injective(n, m);
    } else if n >= 10 && m >= 10 {
        let dn = decimal_digits(n / 10);
        let dm = decimal_digits(m / 10);
        assert(dn =~= decimal_digits(n).drop_last());
        assert(dm =~= decimal_digits(m).drop_last());
        assert(decimal_digits(n).last() == digit_char(n % 10));
        assert(decimal_digits(m).last() == digit_char(m % 10));
        lemma_digit_char_injective(n % 10, m % 10);
        lemma_decimal_digits_injective(n / 10, m / 10);
    }
}

/// A numeral before a character that is no digit is self-delimiting.
pub proof fn lemma_decimal_self_delimiting(n: nat, rn: Seq<char>, m: nat, rm: Seq<char>)
    requires
        decimal_digits(n) + rn == decimal_digits(m) + rm,
        rn.len() > 0,
        !is_digit(rn[0]),
        rm.len() > 0,
        !is_digit(rm[0]),
    ensures
        n == m,
        rn == rm,
{
    let dn = decimal_digits(n);
    let dm = decimal_digits(m);
    lemma_decimal_digits_are_digits(n);
    lemma_decimal_digits_are_digits(m);
    if dn.len() < dm.len() {
        assert((dn + rn)[dn.len() as int] == rn[0]);
        assert((dm + rm)[dn.len() as int] == dm[dn.len() as int]);
    } else if dm.len() < dn.len() {
        assert((dm + rm)[dm.len() as int] == rm[0]);
        assert((dn + rn)[dm.len() as int] == dn[dm.len() as int]);
    } else {
        assert(dn =~= (dn + rn).take(dn.len() as int));
        assert(dm =~= (dm + rm).take(dm.len() as int));
        lemma_decimal_digits_injective(n, m);
        lemma_same_beginning(dn, rn, rm);
    }
}

/// An escaped character is self-delimiting, and never begins with a double
/// quote.
pub proof fn lemma_escaped_char_self_delimiting(c: char, rc: Seq<char>, d: char, rd: Seq<char>)
    requires
        escaped_char(c) + rc == escaped_char(d) + rd,
    ensures
        c == d,
        rc == rd,
{
    let ec = escaped_char(c);
    let ed = escaped_char(d);
    let left = ec + rc;
    let right = ed + rd;
    assert(left[0] == ec[0]);
    assert(right[0] == ed[0]);
    if ec.len() >= 2 {
        assert(left[1] == ec[1]);
    }
    if ed.len() >= 2 {
        assert(right[1] == ed[1]);
    }
    if ec.len() == 6 && ed.len() == 6 {
        assert(left[4] == ec[4]);
        assert(right[4] == ed[4]);
        assert(left[5] == ec[5]);
        assert(right[5] == ed[5]);
        let x = c as u32;
        let y = d as u32;
        lemma_hex_digit_char_injective((x / 16) as nat, (y / 16) as nat);
        lemma_hex_digit_char_injective((x % 16) as nat, (y % 16) as nat);
        assert(x == y);
    }
    assert(c == d);
    lemma_same_beginning(ec, rc, rd);
}

/// Escaped text before a double quote is self-delimiting.
pub proof fn lemma_escaped_text_self_delimiting(
    t: Seq<char>,
    rt: Seq<char>,
    u: Seq<char>,
    ru: Seq<char>,
)
    requires
        escaped_text(t) + rt == escaped_text(u) + ru,
        rt.len() > 0,
        rt[0] == '"',
        ru.len() > 0,
        ru[0] == '"',
    ensures
        t == u,
        rt == ru,
    decreases t.len(),
{
    if t.len() == 0 && u.len() == 0 {
        assert(escaped_text(t) + rt =~= rt);
        assert(escaped_text(u) + ru =~= ru);
    } else if t.len() == 0 {
        assert(escaped_text(t) + rt =~= rt);
        let rest = escaped_text(u.drop_first()) + ru;
        assert(escaped_text(u) + ru =~= escaped_char(u[0]) + rest);
        assert((escaped_char(u[0]) + rest)[0] == escaped_char(u[0])[0]);
    } else if u.len() == 0 {
        assert(escaped_text(u) + ru =~= ru);
        let rest = escaped_text(t.drop_first()) + rt;
        assert(escaped_text(t) + rt =~= escaped_char(t[0]) + rest);
        assert((escaped_char(t[0]) + rest)[0] == escaped_char(t[0])[0]);
    } else {
        let rest_t = escaped_text(t.drop_first()) + rt;
        let rest_u = escaped_text(u.drop_first()) + ru;
        assert(escaped_text(t) + rt =~= escaped_char(t[0]) + rest_t);
        assert(escaped_text(u) + ru =~= escaped_char(u[0]) + rest_u);
        lemma_escaped_char_self_delimiting(t[0], rest_t, u[0], rest_u);
        lemma_escaped_text_self_delimiting(t.drop_first(), rt, u.drop_first(), ru);
        assert(t =~= seq![t[0]] + t.drop_first());
        assert(u =~= seq![u[0]] + u.drop_first());
    }
}

/// A JSON string literal is self-delimiting.
pub proof fn lemma_json_string_self_delimiting(
    t: Seq<char>,
    rt: Seq<char>,
    u: Seq<char>,
    ru: Seq<char>,
)
    requires
        json_string_text(t) + rt == json_string_text(u) + ru,
    ensures
        t == u,
        rt == ru,
{
    reveal(json_string_text);
    let quote = seq!['"'];
    let after_t = quote + rt;
    let after_u = quote + ru;
    assert(json_string_text(t) + rt =~= quote + (escaped_text(t) + after_t));
    assert(json_string_text(u) + ru =~= quote + (escaped_text(u) + after_u));
    lemma_same_beginning(quote, escaped_text(t) + after_t, escaped_text(u) + after_u);
    lemma_escaped_text_self_delimiting(t, after_t, u, after_u);
    lemma_same_beginning(quote, rt, ru);
}

/// The texts `encode(a)` followed by `ra`, and `encode(b)` followed by
/// `rb`, are the same characters.
pub open spec fn agree<A>(
    encode: spec_fn(A) -> Seq<char>,
    a: A,
    ra: Seq<char>,
    b: A,
    rb: Seq<char>,
) -> bool {
    encode(a) + ra == encode(b) + rb
}

/// The texts of `encode` are self-delimiting.
pub open spec fn self_delimiting<A>(encode: spec_fn(A) -> Seq<char>) -> bool {
    forall|a: A, ra: Seq<char>, b: A, rb: Seq<char>| #[trigger]
        agree(encode, a, ra, b, rb) ==> a == b && ra == rb
}

/// The text of `a` begins with a character that is no closing bracket.
pub open spec fn opens_item<A>(encode: spec_fn(A) -> Seq<char>, a: A) -> bool {
    encode(a).len() > 0 && encode(a)[0] != ']'
}

/// Every text of `encode` begins with a character that is no closing
/// bracket.
pub open spec fn opens_items<A>(encode: spec_fn(A) -> Seq<char>) -> bool {
    forall|a: A| #[trigger] opens_item(encode, a)
}

/// The texts of the items of a list.
pub open spec fn texts_of<A>(encode: spec_fn(A) -> Seq<char>, items: Seq<A>) -> Seq<Seq<char>> {
    Seq::new(items.len(), |i: int| encode(items[i]))
}

/// What follows the first item of a list is self-delimiting.
pub proof fn lemma_array_tail_self_delimiting<A>(
    encode: spec_fn(A) -> Seq<char>,
    xs: Seq<A>,
    rx: Seq<char>,
    ys: Seq<A>,
    ry: Seq<char>,
)
    requires
        self_delimiting(encode),
        array_tail(texts_of(encode, xs)) + rx == array_tail(texts_of(encode, ys)) + ry,
    ensures
        xs == ys,
        rx == ry,
    decreases xs.len(),
{
    reveal_strlit("]");
    reveal_strlit(",");
    let tx = texts_of(encode, xs);
    let ty = texts_of(encode, ys);
    let left = array_tail(tx) + rx;
    let right = array_tail(ty) + ry;
    if xs.len() == 0 && ys.len() == 0 {
        lemma_same_beginning("]"@, rx, ry);
        assert(xs =~= ys);
    } else if xs.len() == 0 {
        let rest = ty[0] + array_tail(ty.drop_first()) + ry;
        assert(right =~= ","@ + rest);
        assert(left[0] == "]"@[0]);
        assert(right[0] == ","@[0]);
    } else if ys.len() == 0 {
        let rest = tx[0] + array_tail(tx.drop_first()) + rx;
        assert(left =~= ","@ + rest);
        assert(right[0] == "]"@[0]);
        assert(left[0] == ","@[0]);
    } else {
        let after_x = array_tail(tx.drop_first()) + rx;
        let after_y = array_tail(ty.drop_first()) + ry;
        assert(left =~= ","@ + (tx[0] + after_x));
        assert(right =~= ","@ + (ty[0] + after_y));
        lemma_same_beginning(","@, tx[0] + after_x, ty[0] + after_y);
        assert(agree(encode, xs[0], after_x, ys[0], after_y));
        assert(tx.drop_first() =~= texts_of(encode, xs.drop_first()));
        assert(ty.drop_first() =~= texts_of(encode, ys.drop_first()));
        lemma_array_tail_self_delimiting(encode, xs.drop_first(), rx, ys.drop_first(), ry);
        assert(xs =~= seq![xs[0]] + xs.drop_first());
        assert(ys =~= seq![ys[0]] + ys.drop_first());
    }
}

/// A list of self-delimiting items is self-delimiting.
pub proof fn lemma_json_array_self_delimiting<A>(
    encode: spec_fn(A) -> Seq<char>,
    xs: Seq<A>,
    rx: Seq<char>,
    ys: Seq<A>,
    ry: Seq<char>,
)
    requires
        self_delimiting(encode),
        opens_items(encode),
        json_array(texts_of(encode, xs)) + rx == json_array(texts_of(encode, ys)) + ry,
    ensures
        xs == ys,
        rx == ry,
{
    reveal(json_array);
    reveal_strlit("]");
    let tx = texts_of(encode, xs);
    let ty = texts_of(encode, ys);
    let open = "["@;
    let close = "]"@;
    if xs.len() == 0 && ys.len() == 0 {
        assert(json_array(tx) + rx =~= open + (close + rx));
        assert(json_array(ty) + ry =~= open + (close + ry));
        lemma_same_beginning(open, close + rx, close + ry);
        lemma_same_beginning(close, rx, ry);
        assert(xs =~= ys);
    } else if xs.len() == 0 {
        let after_y = array_tail(ty.drop_first()) + ry;
        assert(json_array(tx) + rx =~= open + (close + rx));
        assert(json_array(ty) + ry =~= open + (ty[0] + after_y));
        lemma_same_beginning(open, close + rx, ty[0] + after_y);
        assert(opens_item(encode, ys[0]));
        assert((close + rx)[0] == close[0]);
        assert((ty[0] + after_y)[0] == ty[0][0]);
    } else if ys.len() == 0 {
        let after_x = array_tail(tx.drop_first()) + rx;
        assert(json_array(ty) + ry =~= open + (close + ry));
        assert(json_array(tx) + rx =~= open + (tx[0] + after_x));
        lemma_same_beginning(open, close + ry, tx[0] + after_x);
        assert(opens_item(encode, xs[0]));
        assert((close + ry)[0] == close[0]);
        assert((tx[0] + after_x)[0] == tx[0][0]);
    } else {
        let after_x = array_tail(tx.drop_first()) + rx;
        let after_y = array_tail(ty.drop_first()) + ry;
        assert(json_array(tx) + rx =~= open + (tx[0] + after_x));
        assert(json_array(ty) + ry =~= open + (ty[0] + after_y));
        lemma_same_beginning(open, tx[0] + after_x, ty[0] + after_y);
        assert(agree(encode, xs[0], after_x, ys[0], after_y));
        assert(tx.drop_first() =~= texts_of(encode, xs.drop_first()));
        assert(ty.drop_first() =~= texts_of(encode, ys.drop_first()));
        lemma_array_tail_self_delimiting(encode, xs.drop_first(), rx, ys.drop_first(), ry);
        assert(xs =~= seq![xs[0]] + xs.drop_first());
        assert(ys =~= seq![ys[0]] + ys.drop_first());
    }
}

/// The string literal of a key or of any other string, as a function.
pub open spec fn string_encoder() -> spec_fn(Seq<char>) -> Seq<char> {
    |text: Seq<char>| json_string_text(text)
}

/// String literals are self-delimiting and begin with a double quote.
pub proof fn lemma_string_encoder()
    ensures
        self_delimiting(string_encoder()),
        opens_items(string_encoder()),
{
    reveal(json_string_text);
    let encode = string_encoder();
    assert forall|a: Seq<char>, ra: Seq<char>, b: Seq<char>, rb: Seq<char>| #[trigger]
        agree(encode, a, ra, b, rb) implies a == b && ra == rb by {
        lemma_json_string_self_delimiting(a, ra, b, rb);
    }
    assert forall|a: Seq<char>| #[trigger] opens_item(encode, a) by {
        assert(json_string_text(a)[0] == '"');
    }
}

/// A comma is no digit, so a numeral before a comma is self-delimiting.
proof fn lemma_comma_is_no_digit()
    ensures
        !is_digit(','),
{
}

/// The text of a threshold rule is self-delimiting.
pub proof fn lemma_condition_self_delimiting(
    a: PkhConditionView,
    ra: Seq<char>,
    b: PkhConditionView,
    rb: Seq<char>,
)
    requires
        condition_json(a) + ra == condition_json(b) + rb,
    ensures
        a == b,
        ra == rb,
{
    reveal(condition_json);
    reveal_strlit(",\"pubkeys\":");
    lemma_comma_is_no_digit();
    lemma_string_encoder();
    let encode = string_encoder();
    let l1 = "{\"threshold\":"@;
    let l2 = ",\"pubkeys\":"@;
    let l3 = "}"@;
    assert(key_texts(a.pubkeys) =~= texts_of(encode, a.pubkeys));
    assert(key_texts(b.pubkeys) =~= texts_of(encode, b.pubkeys));
    let a3 = l3 + ra;
    let a2 = json_array(texts_of(encode, a.pubkeys)) + a3;
    let a1 = l2 + a2;
    let a0 = decimal_digits(a.threshold) + a1;
    let b3 = l3 + rb;
    let b2 = json_array(texts_of(encode, b.pubkeys)) + b3;
    let b1 = l2 + b2;
    let b0 = decimal_digits(b.threshold) + b1;
    assert(condition_json(a) + ra =~= l1 + a0);
    assert(condition_json(b) + rb =~= l1 + b0);
    lemma_same_beginning(l1, a0, b0);
    assert(a1[0] == l2[0]);
    assert(b1[0] == l2[0]);
    lemma_decimal_self_delimiting(a.threshold, a1, b.threshold, b1);
    lemma_same_beginning(l2, a2, b2);
    lemma_json_array_self_delimiting(encode, a.pubkeys, a3, b.pubkeys, b3);
    lemma_same_beginning(l3, ra, rb);
}

/// The text of a lock is self-delimiting.
pub proof fn lemma_lock_self_delimiting(a: LockView, ra: Seq<char>, b: LockView, rb: Seq<char>)
    requires
        lock_json(a) + ra == lock_json(b) + rb,
    ensures
        a == b,
        ra == rb,
{
    reveal(lock_json);
    let l1 = "{\"pkh\":"@;
    let l2 = "}"@;
    let a1 = l2 + ra;
    let a0 = condition_json(a.pkh) + a1;
    let b1 = l2 + rb;
    let b0 = condition_json(b.pkh) + b1;
    assert(lock_json(a) + ra =~= l1 + a0);
    assert(lock_json(b) + rb =~= l1 + b0);
    lemma_same_beginning(l1, a0, b0);
    lemma_condition_self_delimiting(a.pkh, a1, b.pkh, b1);
    lemma_same_beginning(l2, ra, rb);
}

/// The text of a note is self-delimiting.
pub proof fn lemma_note_self_delimiting(a: NoteView, ra: Seq<char>, b: NoteView, rb: Seq<char>)
    requires
        note_json(a) + ra == note_json(b) + rb,
    ensures
        a == b,
        ra == rb,
{
    reveal(note_json);
    reveal_strlit(",\"lock\":");
    lemma_comma_is_no_digit();
    let l1 = "{\"name\":{\"first\":"@;
    let l2 = ",\"last\":"@;
    let l3 = "},\"value\":"@;
    let l4 = ",\"lock\":"@;
    let l5 = "}"@;
    let a7 = l5 + ra;
    let a6 = lock_json(a.lock) + a7;
    let a5 = l4 + a6;
    let a4 = decimal_digits(a.value) + a5;
    let a3 = l3 + a4;
    let a2 = json_string_text(a.name.last) + a3;
    let a1 = l2 + a2;
    let a0 = json_string_text(a.name.first) + a1;
    let b7 = l5 + rb;
    let b6 = lock_json(b.lock) + b7;
    let b5 = l4 + b6;
    let b4 = decimal_digits(b.value) + b5;
    let b3 = l3 + b4;
    let b2 = json_string_text(b.name.last) + b3;
    let b1 = l2 + b2;
    let b0 = json_string_text(b.name.first) + b1;
    assert(note_json(a) + ra =~= l1 + a0);
    assert(note_json(b) + rb =~= l1 + b0);
    lemma_same_beginning(l1, a0, b0);
    lemma_json_string_self_delimiting(a.name.first, a1, b.name.first, b1);
    lemma_same_beginning(l2, a2, b2);
    lemma_json_string_self_delimiting(a.name.last, a3, b.name.last, b3);
    lemma_same_beginning(l3, a4, b4);
    assert(a5[0] == l4[0]);
    assert(b5[0] == l4[0]);
    lemma_decimal_self_delimiting(a.value, a5, b.value, b5);
    lemma_same_beginning(l4, a6, b6);
    lemma_lock_self_delimiting(a.lock, a7, b.lock, b7);
    lemma_same_beginning(l5, ra, rb);
}

/// The text of an output is self-delimiting.
pub proof fn lemma_output_self_delimiting(a: OutputView, ra: Seq<char>, b: OutputView, rb: Seq<char>)
    requires
        output_json(a) + ra == output_json(b) + rb,
    ensures
        a == b,
        ra == rb,
{
    reveal(output_json);
    reveal_strlit(",\"lock\":");
    lemma_comma_is_no_digit();
    let l1 = "{\"recipient\":"@;
    let l2 = ",\"value\":"@;
    let l3 = ",\"lock\":"@;
    let l4 = "}"@;
    let a5 = l4 + ra;
    let a4 = lock_json(a.lock) + a5;
    let a3 = l3 + a4;
    let a2 = decimal_digits(a.value) + a3;
    let a1 = l2 + a2;
    let a0 = json_string_text(a.recipient) + a1;
    let b5 = l4 + rb;
    let b4 = lock_json(b.lock) + b5;
    let b3 = l3 + b4;
    let b2 = decimal_digits(b.value) + b3;
    let b1 = l2 + b2;
    let b0 = json_string_text(b.recipient) + b1;
    assert(output_json(a) + ra =~= l1 + a0);
    assert(output_json(b) + rb =~= l1 + b0);
    lemma_same_beginning(l1, a0, b0);
    lemma_json_string_self_delimiting(a.recipient, a1, b.recipient, b1);
    lemma_same_beginning(l2, a2, b2);
    assert(a3[0] == l3[0]);
    assert(b3[0] == l3[0]);
    lemma_decimal_self_delimiting(a.value, a3, b.value, b3);
    lemma_same_beginning(l3, a4, b4);
    lemma_lock_self_delimiting(a.lock, a5, b.lock, b5);
    lemma_same_beginning(l4, ra, rb);
}

/// The text of a signature entry is self-delimiting.
pub proof fn lemma_entry_self_delimiting(
    a: (Seq<char>, Seq<char>),
    ra: Seq<char>,
    b: (Seq<char>, Seq<char>),
    rb: Seq<char>,
)
    requires
        entry_json(a) + ra == entry_json(b) + rb,
    ensures
        a == b,
        ra == rb,
{
    reveal(entry_json);
    let l1 = "["@;
    let l2 = ","@;
    let l3 = "]"@;
    let a3 = l3 + ra;
    let a2 = json_string_text(a.1) + a3;
    let a1 = l2 + a2;
    let a0 = json_string_text(a.0) + a1;
    let b3 = l3 + rb;
    let b2 = json_string_text(b.1) + b3;
    let b1 = l2 + b2;
    let b0 = json_string_text(b.0) + b1;
    assert(entry_json(a) + ra =~= l1 + a0);
    assert(entry_json(b) + rb =~= l1 + b0);
    lemma_same_beginning(l1, a0, b0);
    lemma_json_string_self_delimiting(a.0, a1, b.0, b1);
    lemma_same_beginning(l2, a2, b2);
    lemma_json_string_self_delimiting(a.1, a3, b.1, b3);
    lemma_same_beginning(l3, ra, rb);
}

/// The text of a signature entry, as a function.
pub open spec fn entry_encoder() -> spec_fn((Seq<char>, Seq<char>)) -> Seq<char> {
    |entry: (Seq<char>, Seq<char>)| entry_json(entry)
}

/// Entry texts are self-delimiting and begin with an opening bracket.
pub proof fn lemma_entry_encoder()
    ensures
        self_delimiting(entry_encoder()),
        opens_items(entry_encoder()),
{
    reveal(entry_json);
    reveal_strlit("[");
    let encode = entry_encoder();
    assert forall|a: (Seq<char>, Seq<char>), ra: Seq<char>, b: (Seq<char>, Seq<char>), rb: Seq<char>| #[trigger]
        agree(encode, a, ra, b, rb) implies a == b && ra == rb by {
        lemma_entry_self_delimiting(a, ra, b, rb);
    }
    assert forall|a: (Seq<char>, Seq<char>)| #[trigger] opens_item(encode, a) by {
        assert(entry_json(a)[0] == "["@[0]);
    }
}

/// The text of a signing record is self-delimiting.
pub proof fn lemma_seeds_self_delimiting(a: SeedsView, ra: Seq<char>, b: SeedsView, rb: Seq<char>)
    requires
        seeds_json(a) + ra == seeds_json(b) + rb,
    ensures
        a == b,
        ra == rb,
{
    reveal(seeds_json);
    lemma_entry_encoder();
    let encode = entry_encoder();
    let l1 = "{\"message_hash\":"@;
    let l2 = ",\"signatures\":"@;
    let l3 = "}"@;
    assert(entry_texts(a.signatures) =~= texts_of(encode, a.signatures));
    assert(entry_texts(b.signatures) =~= texts_of(encode, b.signatures));
    let a3 = l3 + ra;
    let a2 = json_array(texts_of(encode, a.signatures)) + a3;
    let a1 = l2 + a2;
    let a0 = json_string_text(a.message_hash) + a1;
    let b3 = l3 + rb;
    let b2 = json_array(texts_of(encode, b.signatures)) + b3;
    let b1 = l2 + b2;
    let b0 = json_string_text(b.message_hash) + b1;
    assert(seeds_json(a) + ra =~= l1 + a0);
    assert(seeds_json(b) + rb =~= l1 + b0);
    lemma_same_beginning(l1, a0, b0);
    lemma_json_string_self_delimiting(a.message_hash, a1, b.message_hash, b1);
    lemma_same_beginning(l2, a2, b2);
    lemma_json_array_self_delimiting(encode, a.signatures, a3, b.signatures, b3);
    lemma_same_beginning(l3, ra, rb);
}

/// The text of a spend is self-delimiting.
pub proof fn lemma_spend_self_delimiting(a: SpendView, ra: Seq<char>, b: SpendView, rb: Seq<char>)
    requires
        spend_json(a) + ra == spend_json(b) + rb,
    ensures
        a == b,
        ra == rb,
{
    reveal(spend_json);
    let l1 = "{\"note\":"@;
    let l2 = ",\"seeds\":"@;
    let l3 = "}"@;
    let a3 = l3 + ra;
    let a2 = seeds_json(a.seeds) + a3;
    let a1 = l2 + a2;
    let a0 = note_json(a.note) + a1;
    let b3 = l3 + rb;
    let b2 = seeds_json(b.seeds) + b3;
    let b1 = l2 + b2;
    let b0 = note_json(b.note) + b1;
    assert(spend_json(a) + ra =~= l1 + a0);
    assert(spend_json(b) + rb =~= l1 + b0);
    lemma_same_beginning(l1, a0, b0);
    lemma_note_self_delimiting(a.note, a1, b.note, b1);
    lemma_same_beginning(l2, a2, b2);
    lemma_seeds_self_delimiting(a.seeds, a3, b.seeds, b3);
    lemma_same_beginning(l3, ra, rb);
}

/// The text of a spend, as a function.
pub open spec fn spend_encoder() -> spec_fn(SpendView) -> Seq<char> {
    |spend: SpendView| spend_json(spend)
}

/// The text of an output, as a function.
pub open spec fn output_encoder() -> spec_fn(OutputView) -> Seq<char> {
    |output: OutputView| output_json(output)
}

/// Spend texts are self-delimiting and begin with an opening brace.
pub proof fn lemma_spend_encoder()
    ensures
        self_delimiting(spend_encoder()),
        opens_items(spend_encoder()),
{
    reveal(spend_json);
    reveal_strlit("{\"note\":");
    let encode = spend_encoder();
    assert forall|a: SpendView, ra: Seq<char>, b: SpendView, rb: Seq<char>| #[trigger]
        agree(encode, a, ra, b, rb) implies a == b && ra == rb by {
        lemma_spend_self_delimiting(a, ra, b, rb);
    }
    assert forall|a: SpendView| #[trigger] opens_item(encode, a) by {
        assert(spend_json(a)[0] == "{\"note\":"@[0]);
    }
}

/// Output texts are self-delimiting and begin with an opening brace.
pub proof fn lemma_output_encoder()
    ensures
        self_delimiting(output_encoder()),
        opens_items(output_encoder()),
{
    reveal(output_json);
    reveal_strlit("{\"recipient\":");
    let encode = output_encoder();
    assert forall|a: OutputView, ra: Seq<char>, b: OutputView, rb: Seq<char>| #[trigger]
        agree(encode, a, ra, b, rb) implies a == b && ra == rb by {
        lemma_output_self_delimiting(a, ra, b, rb);
    }
    assert forall|a: OutputView| #[trigger] opens_item(encode, a) by {
        assert(output_json(a)[0] == "{\"recipient\":"@[0]);
    }
}

/// The text of a transaction is self-delimiting.
pub proof fn lemma_transaction_self_delimiting(
    a: TransactionView,
    ra: Seq<char>,
    b: TransactionView,
    rb: Seq<char>,
)
    requires
        transaction_json(a) + ra == transaction_json(b) + rb,
    ensures
        a == b,
        ra == rb,
{
    reveal(transaction_json);
    lemma_spend_encoder();
    lemma_output_encoder();
    let spends = spend_encoder();
    let outputs = output_encoder();
    let l1 = "{\"spends\":"@;
    let l2 = ",\"outputs\":"@;
    let l3 = "}"@;
    assert(spend_texts(a.spends) =~= texts_of(spends, a.spends));
    assert(spend_texts(b.spends) =~= texts_of(spends, b.spends));
    assert(output_texts(a.outputs) =~= texts_of(outputs, a.outputs));
    assert(output_texts(b.outputs) =~= texts_of(outputs, b.outputs));
    let a3 = l3 + ra;
    let a2 = json_array(texts_of(outputs, a.outputs)) + a3;
    let a1 = l2 + a2;
    let a0 = json_array(texts_of(spends, a.spends)) + a1;
    let b3 = l3 + rb;
    let b2 = json_array(texts_of(outputs, b.outputs)) + b3;
    let b1 = l2 + b2;
    let b0 = json_array(texts_of(spends, b.spends)) + b1;
    assert(transaction_json(a) + ra =~= l1 + a0);
    assert(transaction_json(b) + rb =~= l1 + b0);
    lemma_same_beginning(l1, a0, b0);
    lemma_json_array_self_delimiting(spends, a.spends, a1, b.spends, b1);
    lemma_same_beginning(l2, a2, b2);
    lemma_json_array_self_delimiting(outputs, a.outputs, a3, b.outputs, b3);
    lemma_same_beginning(l3, ra, rb);
}

/// Different pairs of a spend index and a transaction have different
/// canonical texts.
pub proof fn lemma_payload_json_injective(i: nat, a: TransactionView, j: nat, b: TransactionView)
    requires
        payload_json(i, a) == payload_json(j, b),
    ensures
        i == j,
        a == b,
{
    reveal(payload_json);
    reveal_strlit(",\"transaction\":");
    lemma_comma_is_no_digit();
    let l1 = "{\"spend_index\":"@;
    let l2 = ",\"transaction\":"@;
    let l3 = "}"@;
    let a2 = transaction_json(a) + l3;
    let a1 = l2 + a2;
    let a0 = decimal_digits(i) + a1;
    let b2 = transaction_json(b) + l3;
    let b1 = l2 + b2;
    let b0 = decimal_digits(j) + b1;
    assert(payload_json(i, a) =~= l1 + a0);
    assert(payload_json(j, b) =~= l1 + b0);
    lemma_same_beginning(l1, a0, b0);
    assert(a1[0] == l2[0]);
    assert(b1[0] == l2[0]);
    lemma_decimal_self_delimiting(i, a1, j, b1);
    lemma_same_beginning(l2, a2, b2);
    lemma_transaction_self_delimiting(a, l3, b, l3);
}

} // verus!
