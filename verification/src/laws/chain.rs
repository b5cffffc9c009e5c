//! The chain: words as numbers are written in them, calls, events, and the
//! transactions that are sent.
use vstd::prelude::*;
use vstd::arithmetic::power::pow;
use vstd::utf8::{
    encode_utf8, encode_utf8_decode_utf8, encode_utf8_valid_utf8, is_ascii_chars,
    is_ascii_chars_encode_utf8, is_char_boundary, is_char_boundary_iff_not_is_continuation_byte,
    is_char_boundary_start_end_of_seq, is_continuation_byte,
};

use crate::codec::unhexed;
use crate::eth_tx::{
    be_value, ecdsa_signed, flat, law_wrapping_can_be_read_back, replay_mark, rlp_number,
    rlp_string, stripped_zeros, ticket_signature, unwrapped, LegacyTx,
};
use crate::json::Tree;
use crate::laws::replies::lemma_one_more_field;
use crate::laws::texts::{law_a_number_is_read_back, lemma_hex_value};
use crate::pot::chain::{
    account_in, address_tail, address_word, app_call, be_bytes, channel_in, deposit_in,
    explorer_link, number_word, settled_in, slices, word_at, word_value, zeros, Settled, SPAN,
};
use crate::pot::fund::{deposit_fault, may_ask};
use crate::pot::scan::{
    deposits_in, logs_question, not_tx, settled_count, with_events, with_settled,
};
use crate::pot::wallet::{DepositBody, FundAuth};
use crate::store::tables::{kept, lemma_kept_members};
use crate::text::{
    all_digits, blank, byte_len, digit, hex_number, lowercased, piece, starts_with, unsigned, value,
    without_leading,
};

verus! {

broadcast use vstd::string::group_string_axioms;

// -------------------------------------------------------------------- words

/// A number as the chain writes it: its hex figures behind as many zeros as
/// fill up 64.
pub open spec fn padded(n: u64) -> Seq<char> {
    Seq::new((64 - hex_number(n as nat).len()) as nat, |i: int| '0') + hex_number(n as nat)
}

/// A number that is written as a word is read back from it, wherever the word
/// stands in an answer.
pub proof fn law_a_word_is_read_back(before: Seq<char>, n: u64, after: Seq<char>, k: nat)
    requires
        before.len() == 64 * k,
        is_ascii_chars(before),
        is_ascii_chars(after),
    ensures
        padded(n).len() == 64,
        word_value(padded(n)) == n,
        word_at(before + padded(n) + after, k as int) == n,
{
    lemma_padded(n);
    lemma_word_value(n);
    let s = before + padded(n) + after;
    assert(is_ascii_chars(s)) by {
        assert forall|i: int| 0 <= i < s.len() implies '\0' <= #[trigger] s[i] <= '\u{7f}' by {
            if i < before.len() {
                assert(s[i] == before[i]);
            } else if i < before.len() + 64 {
                assert(s[i] == padded(n)[i - before.len()]);
            } else {
                assert(s[i] == after[i - before.len() - 64]);
            }
        }
    }
    lemma_piece(s, 64 * k, 64 * k + 64);
    assert(s.subrange(64 * k as int, 64 * k as int + 64) =~= padded(n));
}

proof fn lemma_padded(n: u64)
    ensures
        1 <= hex_number(n as nat).len() <= 16,
        padded(n).len() == 64,
        is_ascii_chars(padded(n)),
        all_digits(padded(n), 16),
{
    lemma_hex_value(n as nat);
    assert(pow(16, 16) == 0x1_0000_0000_0000_0000) by {
        reveal_with_fuel(pow, 17);
    }
    lemma_hex_len(n as nat, 16);
    let h = hex_number(n as nat);
    let s = padded(n);
    assert forall|i: int| 0 <= i < s.len() implies '\0' <= #[trigger] s[i] <= '\u{7f}' && digit(s[i])
        < 16 by {
        if i >= 64 - h.len() {
            assert(s[i] == h[i - (64 - h.len())]);
            assert(digit(h[i - (64 - h.len())]) < 16);
        }
    }
}

proof fn lemma_hex_len(n: nat, k: nat)
    requires
        n < pow(16, k),
        k > 0,
    ensures
        hex_number(n).len() <= k,
    decreases k,
{
    reveal(pow);
    if n >= 16 {
        assert(k > 1) by {
            reveal_with_fuel(pow, 3);
        }
        assert(n / 16 < pow(16, (k - 1) as nat)) by (nonlinear_arith)
            requires
                n < pow(16, k),
                pow(16, k) == 16 * pow(16, (k - 1) as nat),
        ;
        lemma_hex_len(n / 16, (k - 1) as nat);
    }
}

proof fn lemma_word_value(n: u64)
    ensures
        word_value(padded(n)) == n,
{
    reveal_strlit("0");
    assert("0"@ =~= seq!['0']);
    let h = hex_number(n as nat);
    lemma_padded(n);
    if n == 0 {
        assert(h =~= seq!['0']);
        assert(padded(n) =~= Seq::new(64, |i: int| '0'));
        lemma_zeros_stripped(64, Seq::<char>::empty());
        assert(Seq::new(64, |i: int| '0') + Seq::<char>::empty() =~= padded(n));
    } else {
        lemma_first_figure(n as nat);
        lemma_zeros_stripped((64 - h.len()) as nat, h);
        law_a_number_is_read_back(n);
    }
}

proof fn lemma_zeros_stripped(k: nat, h: Seq<char>)
    requires
        h.len() > 0 ==> h[0] != '0',
    ensures
        without_leading(Seq::new(k, |i: int| '0') + h, seq!['0']) == h,
    decreases k,
{
    let s = Seq::new(k, |i: int| '0') + h;
    if k == 0 {
        assert(s =~= h);
        if h.len() > 0 {
            assert(h.take(1)[0] == h[0]);
        }
    } else {
        assert(s.take(1) =~= seq!['0']);
        assert(s.skip(1) =~= Seq::new((k - 1) as nat, |i: int| '0') + h);
        lemma_zeros_stripped((k - 1) as nat, h);
    }
}

proof fn lemma_first_figure(n: nat)
    requires
        n > 0,
    ensures
        hex_number(n).len() > 0,
        hex_number(n)[0] != '0',
    decreases n,
{
    if n < 16 {
        if n < 10 {
            assert((('0' as u32 + n) as u8) as char as u32 == '0' as u32 + n);
        } else {
            assert((('a' as u32 + n - 10) as u8) as char as u32 == 'a' as u32 + n - 10);
        }
    } else {
        lemma_first_figure(n / 16);
    }
}

/// A piece of a text of plain characters is counted in characters.
proof fn lemma_piece(s: Seq<char>, from: nat, to: nat)
    requires
        is_ascii_chars(s),
        from <= to <= s.len(),
    ensures
        piece(s, from as int, to as int) == Some(s.subrange(from as int, to as int)),
        byte_len(s) == s.len(),
{
    let b = encode_utf8(s);
    let p = s.subrange(from as int, to as int);
    is_ascii_chars_encode_utf8(s);
    encode_utf8_valid_utf8(s);
    assert(is_ascii_chars(p)) by {
        assert forall|i: int| 0 <= i < p.len() implies '\0' <= #[trigger] p[i] <= '\u{7f}' by {
            assert(p[i] == s[from + i]);
        }
    }
    is_ascii_chars_encode_utf8(p);
    lemma_boundary(s, from as int);
    lemma_boundary(s, to as int);
    assert(b.subrange(from as int, to as int) =~= encode_utf8(p)) by {
        assert forall|i: int| 0 <= i < p.len() implies b.subrange(from as int, to as int)[i]
            == encode_utf8(p)[i] by {
            assert(p[i] == s[from + i]);
            assert(b[from + i] == s[from + i] as u8);
        }
    }
    encode_utf8_decode_utf8(p);
}

proof fn lemma_boundary(s: Seq<char>, i: int)
    requires
        is_ascii_chars(s),
        0 <= i <= s.len(),
    ensures
        is_char_boundary(encode_utf8(s), i),
{
    let b = encode_utf8(s);
    is_ascii_chars_encode_utf8(s);
    encode_utf8_valid_utf8(s);
    is_char_boundary_start_end_of_seq(b);
    if i < s.len() {
        is_char_boundary_iff_not_is_continuation_byte(b, i);
        assert(b[i] == s[i] as u8);
        assert(s[i] <= '\u{7f}');
        assert(!is_continuation_byte(b[i]));
    }
}

/// Some words, one after another, as an answer gives them.
pub open spec fn in_words(ns: Seq<u64>) -> Seq<char>
    decreases ns.len(),
{
    if ns.len() == 0 {
        seq![]
    } else {
        in_words(ns.drop_last()) + padded(ns.last())
    }
}

proof fn lemma_in_words(ns: Seq<u64>, k: int)
    ensures
        in_words(ns).len() == 64 * ns.len(),
        is_ascii_chars(in_words(ns)),
        all_digits(in_words(ns), 16),
        0 <= k < ns.len() ==> word_at(in_words(ns), k) == ns[k],
    decreases ns.len(),
{
    if ns.len() > 0 {
        let front = ns.drop_last();
        lemma_in_words(front, k);
        lemma_padded(ns.last());
        let s = in_words(ns);
        assert forall|i: int| 0 <= i < s.len() implies '\0' <= #[trigger] s[i] <= '\u{7f}'
            && digit(s[i]) < 16 by {
            if i < 64 * front.len() {
                assert(s[i] == in_words(front)[i]);
            } else {
                assert(s[i] == padded(ns.last())[i - 64 * front.len()]);
            }
        }
        assert(is_ascii_chars(s));
        if 0 <= k < front.len() {
            lemma_piece(s, (64 * k) as nat, (64 * k + 64) as nat);
            lemma_piece(in_words(front), (64 * k) as nat, (64 * k + 64) as nat);
            assert(s.subrange(64 * k, 64 * k + 64) =~= in_words(front).subrange(
                64 * k,
                64 * k + 64,
            ));
        } else if k == front.len() {
            law_a_word_is_read_back(in_words(front), ns.last(), Seq::<char>::empty(), front.len());
            assert(in_words(front) + padded(ns.last()) + Seq::<char>::empty() =~= s);
        }
    }
}

proof fn lemma_answer_digits(ns: Seq<u64>)
    requires
        ns.len() > 0,
    ensures
        without_leading("0x"@ + in_words(ns), "0x"@) == in_words(ns),
        byte_len(in_words(ns)) == 64 * ns.len(),
{
    reveal_strlit("0x");
    let h = in_words(ns);
    lemma_in_words(ns, 0);
    lemma_prefix_goes(h);
    lemma_piece(h, 0, 0);
}

pub(crate) proof fn lemma_prefix_goes(h: Seq<char>)
    requires
        all_digits(h, 16),
    ensures
        without_leading("0x"@ + h, "0x"@) == h,
{
    reveal_strlit("0x");
    assert("0x"@.len() == 2 && "0x"@[0] == '0' && "0x"@[1] == 'x');
    assert(digit('x') == 16);
    let s = "0x"@ + h;
    assert(s.take(2) =~= "0x"@);
    assert(s.skip(2) =~= h);
    if starts_with(h, "0x"@) {
        assert(h.take(2)[1] == h[1]);
        assert(digit(h[1]) < 16);
    }
    assert(starts_with(s, "0x"@));
    assert(without_leading(s, "0x"@) == without_leading(s.skip(2), "0x"@));
    assert(without_leading(h, "0x"@) == h);
}

/// An account's balance and limits are the first four numbers of the answer,
/// whatever follows; a shorter answer tells of none.
pub proof fn law_an_account_is_read(ns: Seq<u64>)
    ensures
        ns.len() >= 4 ==> {
            let a = account_in(Tree::Text("0x"@ + in_words(ns)));
            a.balance == ns[0] && a.max_per_job == ns[1] && a.max_per_day == ns[2] && a.spent_today
                == ns[3]
        },
        0 < ns.len() < 4 ==> {
            let a = account_in(Tree::Text("0x"@ + in_words(ns)));
            a.balance == 0 && a.max_per_job == 0 && a.max_per_day == 0 && a.spent_today == 0
        },
{
    if ns.len() > 0 {
        lemma_answer_digits(ns);
        lemma_in_words(ns, 0);
        lemma_in_words(ns, 1);
        lemma_in_words(ns, 2);
        lemma_in_words(ns, 3);
    }
}

/// What a channel holds is the first number of the answer, what was paid the
/// second, what was earned the sixth and what a job may cost the seventh.
pub proof fn law_a_channel_is_read(ns: Seq<u64>)
    ensures
        ns.len() >= 6 ==> {
            let c = channel_in(Tree::Text("0x"@ + in_words(ns)));
            c.reserved == ns[0] && c.paid == ns[1] && c.earned == ns[5]
        },
        ns.len() >= 7 ==> channel_in(Tree::Text("0x"@ + in_words(ns))).max_per_job == ns[6],
        ns.len() == 6 ==> channel_in(Tree::Text("0x"@ + in_words(ns))).max_per_job == 0,
        0 < ns.len() < 6 ==> channel_in(Tree::Text("0x"@ + in_words(ns))).reserved == 0
            && channel_in(Tree::Text("0x"@ + in_words(ns))).earned == 0,
{
    if ns.len() > 0 {
        lemma_answer_digits(ns);
        lemma_in_words(ns, 0);
        lemma_in_words(ns, 1);
        lemma_in_words(ns, 5);
        lemma_in_words(ns, 6);
    }
}

// -------------------------------------------------------------------- calls

/// A number is read back from the 32 bytes it is written in.
pub proof fn law_a_number_fills_a_word(v: u64)
    ensures
        number_word(v).len() == 32,
        be_value(number_word(v)) == v,
{
    let b = be_bytes(v);
    lemma_leading_zeros(24, b);
    lemma_eight(v);
}

proof fn lemma_leading_zeros(n: nat, b: Seq<u8>)
    ensures
        be_value(zeros(n) + b) == be_value(b),
    decreases n + b.len(),
{
    let s = zeros(n) + b;
    if b.len() > 0 {
        assert(s.drop_last() =~= zeros(n) + b.drop_last());
        lemma_leading_zeros(n, b.drop_last());
    } else if n > 0 {
        assert(s.drop_last() =~= zeros((n - 1) as nat) + b);
        lemma_leading_zeros((n - 1) as nat, b);
    } else {
        assert(s =~= b);
    }
}

proof fn lemma_eight(v: u64)
    ensures
        be_value(be_bytes(v)) == v,
{
    let b = be_bytes(v);
    let b7 = b.drop_last();
    let b6 = b7.drop_last();
    let b5 = b6.drop_last();
    let b4 = b5.drop_last();
    let b3 = b4.drop_last();
    let b2 = b3.drop_last();
    let b1 = b2.drop_last();
    let b0 = b1.drop_last();
    assert(b0.len() == 0);
    assert(be_value(b0) == 0);
    assert(b1.last() == (v / 0x100000000000000) as u8);
    assert(v / 0x100000000000000 < 256);
    assert(be_value(b1) == (v / 0x100000000000000) as nat);
    assert(be_value(b2) == v / 0x1000000000000);
    assert(be_value(b3) == v / 0x10000000000);
    assert(be_value(b4) == v / 0x100000000);
    assert(be_value(b5) == v / 0x1000000);
    assert(be_value(b6) == v / 0x10000);
    assert(be_value(b7) == v / 0x100);
}

/// An address fills the last 20 bytes of a word; what is none is refused.
pub proof fn law_an_address_ends_its_word(b: Seq<u8>, addr: Seq<char>)
    ensures
        unhexed(without_leading(addr, "0x"@)) == Some(b) && b.len() == 20 ==> (address_word(
            addr,
        ) matches Ok(w) && w.len() == 32 && w.skip(12) == b && be_value(w) == be_value(b)),
        unhexed(without_leading(addr, "0x"@)) == Some(b) && b.len() != 20 ==> address_word(addr)
            is Err,
        unhexed(without_leading(addr, "0x"@)) is None ==> address_word(addr) is Err,
{
    lemma_leading_zeros(12, b);
    assert((zeros(12) + b).skip(12) =~= b);
}

/// A call holds, behind its selector, who pays, who is paid, how much and
/// until when, and the whole signature at the place that it names.
pub proof fn law_a_call_says_who_pays_whom(
    selector: Seq<u8>,
    client: Seq<u8>,
    worker: Seq<u8>,
    amount: u64,
    deadline: u64,
    sig: Seq<u8>,
)
    requires
        selector.len() == 4,
        client.len() == 32,
        worker.len() == 32,
        sig.len() <= u64::MAX,
    ensures
        ({
            let c = app_call(selector, client, worker, amount, deadline, sig);
            let args = c.skip(4);
            &&& c.len() >= 196 + sig.len()
            &&& c.take(4) == selector
            &&& args.subrange(0, 32) == client
            &&& args.subrange(32, 64) == worker
            &&& be_value(args.subrange(64, 96)) == amount
            &&& be_value(args.subrange(96, 128)) == deadline
            &&& be_value(args.subrange(128, 160)) == 160
            &&& be_value(args.subrange(160, 192)) == sig.len()
            &&& args.subrange(192, 192 + sig.len() as int) == sig
        }),
{
    law_a_number_fills_a_word(amount);
    law_a_number_fills_a_word(deadline);
    law_a_number_fills_a_word(160);
    law_a_number_fills_a_word(sig.len() as u64);
    let c = app_call(selector, client, worker, amount, deadline, sig);
    let args = c.skip(4);
    assert(c.take(4) =~= selector);
    assert(args.subrange(0, 32) =~= client);
    assert(args.subrange(32, 64) =~= worker);
    assert(args.subrange(64, 96) =~= number_word(amount));
    assert(args.subrange(96, 128) =~= number_word(deadline));
    assert(args.subrange(128, 160) =~= number_word(160));
    assert(args.subrange(160, 192) =~= number_word(sig.len() as u64));
    assert(args.subrange(192, 192 + sig.len() as int) =~= sig);
}

// ------------------------------------------------------------------- events

/// The address at the end of a word is its last 40 figures.
pub proof fn law_an_address_is_a_words_tail(front: Seq<char>, addr: Seq<char>)
    requires
        addr.len() == 40,
        is_ascii_chars(front + addr),
    ensures
        address_tail(front + addr) == Some("0x"@ + addr),
{
    let s = front + addr;
    lemma_piece(s, (s.len() - 40) as nat, s.len());
    assert(s.subrange(s.len() - 40, s.len() as int) =~= addr);
}

/// A deposit names its client in the second topic and the app's key in the
/// fourth word of its data.
pub proof fn law_a_deposit_names_client_and_key(
    log: Tree,
    topics: Seq<Tree>,
    client_word: Seq<char>,
    data: Seq<char>,
    key_word: Seq<char>,
)
    requires
        log.get("topics"@) == Some(Tree::List(topics)),
        topics.len() >= 2,
        topics[1] == Tree::Text("0x"@ + client_word),
        log.get("data"@) == Some(Tree::Text("0x"@ + data)),
        client_word.len() == 64 && all_digits(client_word, 16),
        data.len() >= 256 && all_digits(data, 16),
        key_word == data.subrange(192, 256),
    ensures
        deposit_in(log) == Some(("0x"@ + client_word.skip(24), "0x"@ + key_word.skip(24))),
{
    lemma_prefix_goes(client_word);
    lemma_prefix_goes(data);
    lemma_digits_are_plain(client_word);
    lemma_digits_are_plain(data);
    lemma_digits_are_plain(key_word);
    lemma_piece(data, 192, 256);
    assert(client_word =~= client_word.take(24) + client_word.skip(24));
    law_an_address_is_a_words_tail(client_word.take(24), client_word.skip(24));
    assert(key_word =~= key_word.take(24) + key_word.skip(24));
    law_an_address_is_a_words_tail(key_word.take(24), key_word.skip(24));
}

proof fn lemma_digits_are_plain(s: Seq<char>)
    requires
        all_digits(s, 16),
    ensures
        is_ascii_chars(s),
{
    assert forall|i: int| 0 <= i < s.len() implies '\0' <= #[trigger] s[i] <= '\u{7f}' by {
        assert(digit(s[i]) < 16);
    }
}

/// A settlement tells who was paid in the third topic, and in its data how
/// much in all, how much of it now, and the fee; and the block and the
/// transaction it stands in.
pub proof fn law_a_settlement_tells_what_was_paid(
    log: Tree,
    topics: Seq<Tree>,
    worker: Seq<char>,
    ns: Seq<u64>,
    block: u64,
    tx: Seq<char>,
)
    requires
        log.get("topics"@) == Some(Tree::List(topics)),
        topics.len() >= 3,
        topics[2] == Tree::Text("0x"@ + worker),
        worker.len() == 64 && all_digits(worker, 16),
        log.get("data"@) == Some(Tree::Text("0x"@ + in_words(ns))),
        ns.len() >= 3,
        log.get("blockNumber"@) == Some(Tree::Text("0x"@ + hex_number(block as nat))),
        log.get("transactionHash"@) == Some(Tree::Text(tx)),
    ensures
        settled_in(log) matches Some(t) && t.tx_hash == tx && t.payout == "0x"@ + worker.skip(24)
            && t.cumulative == ns[0] && t.paid_to_worker == ns[1] && t.fee == ns[2] && t.block
            == block,
{
    lemma_prefix_goes(worker);
    lemma_digits_are_plain(worker);
    assert(worker =~= worker.take(24) + worker.skip(24));
    law_an_address_is_a_words_tail(worker.take(24), worker.skip(24));
    lemma_answer_digits(ns);
    lemma_in_words(ns, 0);
    lemma_in_words(ns, 1);
    lemma_in_words(ns, 2);
    lemma_hex_value(block as nat);
    lemma_prefix_goes(hex_number(block as nat));
    law_a_number_is_read_back(block);
}

/// The slices of a range begin with its first block, end with its last, and
/// each begins where the one before ended.
pub proof fn law_slices_follow_each_other(from: nat, head: nat)
    requires
        from <= head <= u64::MAX,
    ensures
        slices(from, head).len() > 0,
        slices(from, head)[0].0 == from,
        slices(from, head).last().1 == head,
        forall|i: int|
            0 <= i < slices(from, head).len() - 1 ==> (#[trigger] slices(from, head)[i]).1 + 1
                == slices(from, head)[i + 1].0,
        forall|i: int|
            0 <= i < slices(from, head).len() - 1 ==> (#[trigger] slices(from, head)[i]).1 + 1
                - slices(from, head)[i].0 == 9000,
        slices(head + 1, head).len() == 0,
    decreases head + 1 - from,
{
    let all = slices(from, head);
    if from + SPAN - 1 < head {
        let rest = slices((from + SPAN) as nat, head);
        law_slices_follow_each_other((from + SPAN) as nat, head);
        assert(all =~= seq![(from as u64, (from + SPAN - 1) as u64)] + rest);
        assert forall|i: int| 0 <= i < all.len() - 1 implies (#[trigger] all[i]).1 + 1 == all[i
            + 1].0 && all[i].1 + 1 - all[i].0 == 9000 by {
            if i > 0 {
                assert(all[i] == rest[i - 1]);
                assert(all[i + 1] == rest[i]);
            }
        }
    } else {
        assert(slices(head + 1, head) =~= Seq::empty());
        assert(all =~= seq![(from as u64, head as u64)]);
    }
}

/// Events are asked for of this contract, from this block to that one, on
/// these topics.
pub proof fn law_events_are_asked_for(
    pot: Seq<char>,
    from: Seq<char>,
    to: Seq<char>,
    topics: Tree,
)
    ensures
        logs_question(pot, from, to, topics) matches Tree::List(l) && l.len() == 1 && l[0].get(
            "address"@,
        ) == Some(Tree::Text(pot)) && l[0].get("fromBlock"@) == Some(Tree::Text(from)) && l[0].get(
            "toBlock"@,
        ) == Some(Tree::Text(to)) && l[0].get("topics"@) == Some(topics),
{
    broadcast use lemma_one_more_field;

    reveal_strlit("address");
    reveal_strlit("fromBlock");
    reveal_strlit("toBlock");
    reveal_strlit("topics");
    assert("address"@.len() == 7);
    assert("fromBlock"@.len() == 9);
    assert("toBlock"@.len() == 7);
    assert("topics"@.len() == 6);
    assert("address"@[0] == 'a');
    assert("toBlock"@[0] == 't');
}

/// Each event that is one is taken over, in the order they came; any other is
/// passed over.
pub proof fn law_each_event_counts(ts: Seq<Settled>, logs: Seq<Tree>, log: Tree)
    ensures
        deposit_in(log) matches Some(d) ==> deposits_in(logs.push(log)) == deposits_in(logs).push(
            d,
        ),
        deposit_in(log) is None ==> deposits_in(logs.push(log)) == deposits_in(logs),
        settled_in(log) matches Some(t) ==> with_events(ts, logs.push(log)) == with_settled(
            with_events(ts, logs),
            t,
        ) && settled_count(logs.push(log)) == settled_count(logs) + 1,
        settled_in(log) is None ==> with_events(ts, logs.push(log)) == with_events(ts, logs)
            && settled_count(logs.push(log)) == settled_count(logs),
        deposits_in(seq![]).len() == 0 && with_events(ts, seq![]) == ts && settled_count(seq![])
            == 0,
{
    assert(logs.push(log).drop_last() =~= logs);
}

/// A settlement is kept under its transaction, in place of what was known of
/// it; those of other transactions stay.
pub proof fn law_a_settlement_is_kept_once(ts: Seq<Settled>, t: Settled, other: Settled)
    ensures
        with_settled(ts, t).last().tx_hash == lowercased(t.tx_hash),
        with_settled(ts, t).last().payout == lowercased(t.payout),
        with_settled(ts, t).last().cumulative == t.cumulative && with_settled(ts, t).last().block
            == t.block && with_settled(ts, t).last().paid_to_worker == t.paid_to_worker
            && with_settled(ts, t).last().fee == t.fee,
        other.tx_hash != lowercased(t.tx_hash) ==> (with_settled(ts, t).contains(other)
            <==> ts.contains(other)),
        forall|i: int|
            0 <= i < with_settled(ts, t).len() - 1 ==> (#[trigger] with_settled(ts, t)[i]).tx_hash
                != lowercased(t.tx_hash),
{
    let tx = lowercased(t.tx_hash);
    let k = kept(ts, not_tx(tx));
    let all = with_settled(ts, t);
    lemma_kept_members(ts, not_tx(tx));
    assert forall|i: int| 0 <= i < all.len() - 1 implies (#[trigger] all[i]).tx_hash != tx by {
        assert(all[i] == k[i]);
        assert(k.contains(k[i]));
    }
    if other.tx_hash != tx {
        assert(not_tx(tx)(other));
        if ts.contains(other) {
            assert(k.contains(other));
            let i = choose|i: int| 0 <= i < k.len() && k[i] == other;
            assert(all[i] == other);
        }
        if all.contains(other) {
            let i = choose|i: int| 0 <= i < all.len() && all[i] == other;
            assert(i < k.len());
            assert(k[i] == other);
            assert(k.contains(other));
        }
    }
}

/// A transaction can be looked at on the main chain and on the test chain,
/// with or without the mark of hex figures in front.
pub proof fn law_where_a_transaction_is_shown(chain_id: u64, h: Seq<char>)
    requires
        !starts_with(h, "0x"@),
        !starts_with(h, "0X"@),
    ensures
        explorer_link(8453, h) == Some("https://basescan.org/tx/"@ + ("0x"@ + h)),
        explorer_link(84532, h) == Some("https://sepolia.basescan.org/tx/"@ + ("0x"@ + h)),
        explorer_link(chain_id, "0x"@ + h) == explorer_link(chain_id, h),
        chain_id != 8453 && chain_id != 84532 ==> explorer_link(chain_id, h) is None,
{
    crate::laws::texts::law_the_rest_follows_the_prefix("0x"@, h);
}

// ------------------------------------------------------------------ funding

/// Only the token of this launch opens the funding page.
pub proof fn law_only_this_launch_may_ask(auth: FundAuth, token: Seq<char>)
    ensures
        may_ask(auth, token) <==> auth.t@ == token && token.len() > 0,
{
}

/// A deposit is noted unless it names no transaction or there is no room.
pub proof fn law_a_named_deposit_is_noted(db: crate::store::Db, body: DepositBody)
    ensures
        blank(body.tx_hash@) ==> (deposit_fault(db, body) matches Some(e) && e is Invalid),
        !blank(body.tx_hash@) && db.deposits@.len() < crate::store::MOST_ROWS ==> deposit_fault(
            db,
            body,
        ) is None,
{
}

// ------------------------------------------------------------- transactions

/// What is signed lists the nonce, the price and the amount of gas, the
/// receiver, the value, the data and the chain, in this order.
pub proof fn law_what_is_signed(tx: LegacyTx)
    requires
        flat(tx.body()).len() + 40 <= u64::MAX,
    ensures
        unwrapped(0xc0, 0xf7, tx.unsigned()) == Some(
            rlp_number(tx.nonce) + rlp_number(tx.gas_price) + rlp_number(tx.gas) + rlp_string(
                tx.to@,
            ) + rlp_number(tx.value) + rlp_string(tx.data@) + rlp_number(tx.chain_id) + seq![
                0x80u8,
                0x80u8,
            ],
        ),
{
    let items = tx.body().push(rlp_number(tx.chain_id)).push(rlp_number(0)).push(rlp_number(0));
    lemma_flat_body(tx);
    lemma_flat_push(tx.body(), rlp_number(tx.chain_id));
    lemma_flat_push(tx.body().push(rlp_number(tx.chain_id)), rlp_number(0));
    lemma_flat_push(tx.body().push(rlp_number(tx.chain_id)).push(rlp_number(0)), rlp_number(0));
    crate::eth_tx::law_numbers_are_written_shortest(0);
    crate::laws::chain::lemma_number_len(tx.chain_id);
    law_wrapping_can_be_read_back(0xc0, 0xf7, flat(items));
    assert(flat(items) =~= rlp_number(tx.nonce) + rlp_number(tx.gas_price) + rlp_number(tx.gas)
        + rlp_string(tx.to@) + rlp_number(tx.value) + rlp_string(tx.data@) + rlp_number(tx.chain_id)
        + seq![0x80u8, 0x80u8]);
}

pub(crate) proof fn lemma_number_len(n: u64)
    ensures
        rlp_number(n).len() <= 9,
{
    assert(pow(256, 8) == 0x1_0000_0000_0000_0000) by {
        reveal_with_fuel(pow, 9);
    }
    crate::eth_tx::lemma_big_endian_len(n as nat, 8);
}

proof fn lemma_flat_push(items: Seq<Seq<u8>>, x: Seq<u8>)
    ensures
        flat(items.push(x)) == flat(items) + x,
{
    assert(items.push(x).drop_last() =~= items);
}

proof fn lemma_flat_body(tx: LegacyTx)
    ensures
        flat(tx.body()) == rlp_number(tx.nonce) + rlp_number(tx.gas_price) + rlp_number(tx.gas)
            + rlp_string(tx.to@) + rlp_number(tx.value) + rlp_string(tx.data@),
{
    let e = Seq::<Seq<u8>>::empty();
    let a = e.push(rlp_number(tx.nonce));
    let b = a.push(rlp_number(tx.gas_price));
    let c = b.push(rlp_number(tx.gas));
    let d = c.push(rlp_string(tx.to@));
    let f = d.push(rlp_number(tx.value));
    let g = f.push(rlp_string(tx.data@));
    lemma_flat_push(e, rlp_number(tx.nonce));
    lemma_flat_push(a, rlp_number(tx.gas_price));
    lemma_flat_push(b, rlp_number(tx.gas));
    lemma_flat_push(c, rlp_string(tx.to@));
    lemma_flat_push(d, rlp_number(tx.value));
    lemma_flat_push(f, rlp_string(tx.data@));
    assert(g =~= tx.body());
    assert(flat(e) =~= Seq::<u8>::empty());
    assert(flat(a) =~= rlp_number(tx.nonce));
}

/// What is sent is what was signed with the signature in place of the chain.
pub proof fn law_what_is_sent(tx: LegacyTx, v: u64, r: Seq<u8>, s: Seq<u8>)
    requires
        flat(tx.body()).len() + rlp_string(stripped_zeros(r)).len() + rlp_string(
            stripped_zeros(s),
        ).len() + 9 <= u64::MAX,
    ensures
        unwrapped(0xc0, 0xf7, tx.signed(v, r, s)) == Some(
            rlp_number(tx.nonce) + rlp_number(tx.gas_price) + rlp_number(tx.gas) + rlp_string(
                tx.to@,
            ) + rlp_number(tx.value) + rlp_string(tx.data@) + rlp_number(v) + rlp_string(
                stripped_zeros(r),
            ) + rlp_string(stripped_zeros(s)),
        ),
{
    let one = tx.body().push(rlp_number(v));
    let two = one.push(rlp_string(stripped_zeros(r)));
    lemma_flat_body(tx);
    lemma_flat_push(tx.body(), rlp_number(v));
    lemma_flat_push(one, rlp_string(stripped_zeros(r)));
    lemma_flat_push(two, rlp_string(stripped_zeros(s)));
    lemma_number_len(v);
    law_wrapping_can_be_read_back(0xc0, 0xf7, flat(two.push(rlp_string(stripped_zeros(s)))));
}

/// A number keeps its value without the zeros in front, and none is left.
pub proof fn law_zeros_in_front_go(b: Seq<u8>)
    ensures
        be_value(stripped_zeros(b)) == be_value(b),
        stripped_zeros(b).len() > 0 ==> stripped_zeros(b)[0] != 0,
    decreases b.len(),
{
    if b.len() > 0 && b[0] == 0 {
        law_zeros_in_front_go(b.drop_first());
        lemma_leading_zeros(1, b.drop_first());
        assert(zeros(1) + b.drop_first() =~= b);
    }
}

/// A byte string is read back, whatever its length; one small byte stands for
/// itself.
pub proof fn law_a_string_is_read_back(b: Seq<u8>)
    requires
        b.len() <= u64::MAX,
    ensures
        b.len() == 1 && b[0] < 128 ==> rlp_string(b) == b,
        !(b.len() == 1 && b[0] < 128) ==> unwrapped(0x80, 0xb7, rlp_string(b)) == Some(b),
{
    law_wrapping_can_be_read_back(0x80, 0xb7, b);
}

/// The mark of a signature tells the chain and which of two keys signed.
pub proof fn law_a_mark_tells_its_chain(chain_id: u64, id: u8)
    requires
        id < 2,
    ensures
        (replay_mark(chain_id, id) - 35) / 2 == chain_id,
        (replay_mark(chain_id, id) - 35) % 2 == id,
{
}

/// A ticket's signature is the signature and, behind it, which of two keys
/// signed, counted from 27.
pub proof fn law_a_ticket_is_signed(key: Seq<u8>, digest: Seq<u8>)
    ensures
        ecdsa_signed(key, digest) is None ==> ticket_signature(key, digest) is None,
        ecdsa_signed(key, digest) matches Some(p) ==> (ticket_signature(key, digest) matches Some(
            s,
        ) && s.len() == p.0.len() + 1 && s.take(p.0.len() as int) == p.0 && (p.1 < 2 ==> s.last()
            == 27 + p.1)),
{
    if let Some(p) = ecdsa_signed(key, digest) {
        let s = p.0.push((p.1 + 27) as u8);
        assert(s.take(p.0.len() as int) =~= p.0);
    }
}

} // verus!
