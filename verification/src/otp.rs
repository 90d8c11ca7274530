//! One-time passwords and the store that keeps them: a text with one
//! `email:otp` record per line.

use rand::Rng;
use crate::mail::{otp_mail, sender, MailPlan};
use vstd::string::StringSliceAdditionalSpecFns;
use vstd::prelude::*;
use crate::text::{
    find_byte_from, free_of, is_first, lemma_first_exists, lemma_first_unique, lemma_lines_append,
    lemma_lines_cons, lemma_lines_free_of_nl, lines, next_line, push_all, push_range,
    starts_with, starts_with_at, strip_cr, CR, NL,
};

verus! {

/// The separator between the e-mail and the password of a record, `:`.
pub const COLON: u8 = 58;


/// The second `:`-separated field of a record line, as
/// `line.split(":").collect::<Vec<_>>()[1]` reads it; `None` where the line
/// holds no `:`, so that the field does not exist.
pub open spec fn second_field(l: Seq<u8>) -> Option<Seq<u8>> {
    if exists|i: int| is_first(l, COLON, i) {
        let i = choose|i: int| is_first(l, COLON, i);
        let rest = l.skip(i + 1);
        if exists|j: int| is_first(rest, COLON, j) {
            let j = choose|j: int| is_first(rest, COLON, j);
            Some(rest.take(j))
        } else {
            Some(rest)
        }
    } else {
        None
    }
}

/// The record line of `email` with password `otp`.
pub open spec fn otp_line(email: Seq<u8>, otp: Seq<u8>) -> Seq<u8> {
    email + seq![COLON] + otp
}


/// The e-mail field of a record line: the text before its first `:`;
/// `None` where the line holds no `:`.
pub open spec fn email_field(l: Seq<u8>) -> Option<Seq<u8>> {
    if exists|i: int| is_first(l, COLON, i) {
        Some(l.take(choose|i: int| is_first(l, COLON, i)))
    } else {
        None
    }
}

/// `l` is the record of `email`: its e-mail field is `email`.
pub open spec fn is_record_of(l: Seq<u8>, email: Seq<u8>) -> bool {
    email_field(l) == Some(email)
}

/// The first of `ls` that is the record of `email`.
pub open spec fn first_record(ls: Seq<Seq<u8>>, email: Seq<u8>) -> Option<Seq<u8>>
    decreases ls.len(),
{
    if ls.len() == 0 {
        None
    } else if is_record_of(ls[0], email) {
        Some(ls[0])
    } else {
        first_record(ls.drop_first(), email)
    }
}

/// The password the store `contents` holds for `email`: the second field of
/// the first record of `email`; `None` where the store holds no record of
/// `email`, and for the empty e-mail, to which no password is ever sent.
pub open spec fn stored_otp(contents: Seq<u8>, email: Seq<u8>) -> Option<Seq<u8>> {
    if email.len() == 0 {
        None
    } else {
        match first_record(lines(contents), email) {
            None => None,
            Some(l) => second_field(l),
        }
    }
}

/// The store `contents` accepts `otp` for `email`.
pub open spec fn otp_accepted(contents: Seq<u8>, email: Seq<u8>, otp: Seq<u8>) -> bool {
    stored_otp(contents, email) == Some(otp)
}

/// A line of the store once `otp` is recorded for `email`: the record of
/// `email` becomes `email:otp`, any other line stays.
pub open spec fn fix_line(l: Seq<u8>, email: Seq<u8>, otp: Seq<u8>) -> Seq<u8> {
    if is_record_of(l, email) {
        otp_line(email, otp)
    } else {
        l
    }
}

/// The lines `ls` written back, each followed by `\n`, the records of
/// `email` replaced by `email:otp`.
pub open spec fn rewrite_lines(ls: Seq<Seq<u8>>, email: Seq<u8>, otp: Seq<u8>) -> Seq<u8>
    decreases ls.len(),
{
    if ls.len() == 0 {
        Seq::empty()
    } else {
        fix_line(ls[0], email, otp) + seq![NL] + rewrite_lines(ls.drop_first(), email, otp)
    }
}

/// The store with its last line ended by `\n`.
pub open spec fn terminated(contents: Seq<u8>) -> Seq<u8> {
    if contents.len() == 0 || contents.last() == NL {
        contents
    } else {
        contents.push(NL)
    }
}

/// The store after `otp` is recorded for `email`: where the store holds a
/// record of `email`, the store is written back line by line with that
/// record replaced; otherwise `email:otp` is appended on a line of its own.
pub open spec fn recorded(contents: Seq<u8>, email: Seq<u8>, otp: Seq<u8>) -> Seq<u8> {
    if first_record(lines(contents), email) is Some {
        rewrite_lines(lines(contents), email, otp)
    } else {
        terminated(contents) + otp_line(email, otp) + seq![NL]
    }
}

/// No line of `ls` ends with `\r`.
pub open spec fn no_trailing_cr(ls: Seq<Seq<u8>>) -> bool {
    forall|k: int| 0 <= k < ls.len() ==> strip_cr(#[trigger] ls[k]) == ls[k]
}

/// At most one of `ls` is the record of `email`.
pub open spec fn at_most_one_record(ls: Seq<Seq<u8>>, email: Seq<u8>) -> bool {
    forall|i: int, j: int|
        0 <= i < ls.len() && 0 <= j < ls.len() && is_record_of(#[trigger] ls[i], email)
            && is_record_of(#[trigger] ls[j], email) ==> i == j
}

/// Exactly one of `ls` is the record of `email`.
pub open spec fn exactly_one_record(ls: Seq<Seq<u8>>, email: Seq<u8>) -> bool {
    &&& at_most_one_record(ls, email)
    &&& exists|k: int| 0 <= k < ls.len() && is_record_of(#[trigger] ls[k], email)
}

/// Removing a final `\r` keeps the e-mail field.
pub proof fn lemma_field_strip_cr(l: Seq<u8>)
    ensures
        email_field(strip_cr(l)) == email_field(l),
{
    if l.len() > 0 && l.last() == CR {
        let l2 = l.drop_last();
        if exists|i: int| is_first(l, COLON, i) {
            let i = choose|i: int| is_first(l, COLON, i);
            assert(l2.take(i) =~= l.take(i));
            assert(is_first(l2, COLON, i));
            let j = choose|j: int| is_first(l2, COLON, j);
            lemma_first_unique(l2, COLON, i, j);
        } else if exists|j: int| is_first(l2, COLON, j) {
            let j = choose|j: int| is_first(l2, COLON, j);
            assert(l[j] == COLON);
            lemma_first_exists(l, COLON, j);
        }
    }
}

/// The record line of `email` is the record of `email`.
pub proof fn lemma_record_line(email: Seq<u8>, otp: Seq<u8>)
    requires
        free_of(email, COLON),
    ensures
        is_record_of(otp_line(email, otp), email),
{
    let l = otp_line(email, otp);
    let n = email.len() as int;
    assert(l.take(n) =~= email);
    assert(is_first(l, COLON, n));
    let i = choose|i: int| is_first(l, COLON, i);
    lemma_first_unique(l, COLON, i, n);
}

/// Mapping the lines with a function that keeps which of them are records
/// of `email` maps the first record.
pub proof fn lemma_first_record_map(ls: Seq<Seq<u8>>, g: spec_fn(Seq<u8>) -> Seq<u8>, email: Seq<u8>)
    requires
        forall|k: int| 0 <= k < ls.len() ==> is_record_of(g(#[trigger] ls[k]), email) == is_record_of(ls[k], email),
    ensures
        first_record(ls.map_values(g), email) == (match first_record(ls, email) {
            Some(l) => Some(g(l)),
            None => None,
        }),
    decreases ls.len(),
{
    if ls.len() > 0 {
        let m = ls.map_values(g);
        assert(m[0] == g(ls[0]));
        assert(m.drop_first() =~= ls.drop_first().map_values(g));
        assert forall|k: int| 0 <= k < ls.drop_first().len() implies is_record_of(
            g(#[trigger] ls.drop_first()[k]),
            email,
        ) == is_record_of(ls.drop_first()[k], email) by {
            assert(ls.drop_first()[k] == ls[k + 1]);
        }
        lemma_first_record_map(ls.drop_first(), g, email);
    }
}

/// Lines before the first record do not change what is found.
pub proof fn lemma_first_record_append(a: Seq<Seq<u8>>, b: Seq<Seq<u8>>, email: Seq<u8>)
    ensures
        first_record(a + b, email) == (if first_record(a, email) is Some {
            first_record(a, email)
        } else {
            first_record(b, email)
        }),
    decreases a.len(),
{
    if a.len() == 0 {
        assert(a + b =~= b);
    } else {
        assert((a + b)[0] == a[0]);
        assert((a + b).drop_first() =~= a.drop_first() + b);
        lemma_first_record_append(a.drop_first(), b, email);
    }
}

/// No record is found exactly where none of `ls` is a record.
pub proof fn lemma_first_record_none(ls: Seq<Seq<u8>>, email: Seq<u8>)
    ensures
        first_record(ls, email) is None <==> forall|k: int|
            0 <= k < ls.len() ==> !is_record_of(#[trigger] ls[k], email),
    decreases ls.len(),
{
    if ls.len() > 0 {
        lemma_first_record_none(ls.drop_first(), email);
        if first_record(ls, email) is None {
            assert forall|k: int| 0 <= k < ls.len() implies !is_record_of(#[trigger] ls[k], email) by {
                if k > 0 {
                    assert(ls[k] == ls.drop_first()[k - 1]);
                }
            }
        } else if !is_record_of(ls[0], email) {
            let k = choose|k: int| 0 <= k < ls.drop_first().len() && is_record_of(#[trigger] ls.drop_first()[k], email);
            assert(ls.drop_first()[k] == ls[k + 1]);
        }
    }
}

/// Where a record is found, it has an index, and no record comes before it.
pub proof fn lemma_first_record_index(ls: Seq<Seq<u8>>, email: Seq<u8>) -> (k: int)
    requires
        first_record(ls, email) is Some,
    ensures
        0 <= k < ls.len(),
        ls[k] == first_record(ls, email)->0,
        is_record_of(ls[k], email),
    decreases ls.len(),
{
    if is_record_of(ls[0], email) {
        0
    } else {
        let k = lemma_first_record_index(ls.drop_first(), email);
        k + 1
    }
}

/// The lines of rewritten lines.
pub proof fn lemma_lines_rewrite(ls: Seq<Seq<u8>>, email: Seq<u8>, otp: Seq<u8>)
    requires
        forall|k: int| 0 <= k < ls.len() ==> free_of(#[trigger] ls[k], NL),
        free_of(email, NL),
        free_of(otp, NL),
    ensures
        lines(rewrite_lines(ls, email, otp)) =~= ls.map_values(
            |l: Seq<u8>| strip_cr(fix_line(l, email, otp)),
        ),
    decreases ls.len(),
{
    let g = |l: Seq<u8>| strip_cr(fix_line(l, email, otp));
    if ls.len() == 0 {
        assert(lines(Seq::<u8>::empty()) =~= Seq::<Seq<u8>>::empty());
    } else {
        let l0 = ls[0];
        let tail = ls.drop_first();
        assert(free_of(otp_line(email, otp), NL));
        let head = fix_line(l0, email, otp);
        lemma_lines_cons(head, rewrite_lines(tail, email, otp));
        assert forall|k: int| 0 <= k < tail.len() implies free_of(#[trigger] tail[k], NL) by {
            assert(tail[k] == ls[k + 1]);
        }
        lemma_lines_rewrite(tail, email, otp);
        assert(ls.map_values(g) =~= seq![g(l0)] + tail.map_values(g));
    }
}

/// Rewritten lines end with `\n`.
pub proof fn lemma_rewrite_ends_nl(ls: Seq<Seq<u8>>, email: Seq<u8>, otp: Seq<u8>)
    requires
        ls.len() > 0,
    ensures
        rewrite_lines(ls, email, otp).len() > 0,
        rewrite_lines(ls, email, otp).last() == NL,
    decreases ls.len(),
{
    let rest = rewrite_lines(ls.drop_first(), email, otp);
    let front = fix_line(ls[0], email, otp) + seq![NL];
    if ls.len() > 1 {
        lemma_rewrite_ends_nl(ls.drop_first(), email, otp);
        assert((front + rest).last() == rest.last());
    } else {
        assert(rest =~= Seq::<u8>::empty());
        assert(front + rest =~= front);
    }
}

/// The lines of a store ended by `\n`: the last line loses a final `\r`.
pub proof fn lemma_lines_push_nl(s: Seq<u8>)
    requires
        s.len() > 0,
        s.last() != NL,
    ensures
        lines(s).len() > 0,
        lines(s.push(NL)) =~= lines(s).drop_last().push(strip_cr(lines(s).last())),
    decreases s.len(),
{
    let sp = s.push(NL);
    if exists|i: int| is_first(s, NL, i) {
        let i = choose|i: int| is_first(s, NL, i);
        assert(sp.take(i) =~= s.take(i));
        assert(is_first(sp, NL, i));
        let j = choose|j: int| is_first(sp, NL, j);
        lemma_first_unique(sp, NL, i, j);
        let rest = s.skip(i + 1);
        assert(sp.skip(i + 1) =~= rest.push(NL));
        assert(rest.last() == s.last());
        lemma_lines_push_nl(rest);
        let h = strip_cr(s.take(i));
        assert(lines(s) =~= seq![h] + lines(rest));
        assert(lines(s).drop_last() =~= seq![h] + lines(rest).drop_last());
    } else {
        assert forall|j: int| 0 <= j < s.len() implies s[j] != NL by {
            if s[j] == NL {
                lemma_first_exists(s, NL, j);
            }
        }
        lemma_lines_cons(s, Seq::empty());
        assert(sp =~= s + seq![NL] + Seq::<u8>::empty());
        assert(lines(Seq::<u8>::empty()) =~= Seq::<Seq<u8>>::empty());
    }
}

/// The lines of the terminated store: the same e-mail fields, and the same
/// lines where none ends with `\r`.
pub proof fn lemma_lines_terminated(c: Seq<u8>)
    ensures
        lines(terminated(c)).len() == lines(c).len(),
        forall|k: int|
            0 <= k < lines(c).len() ==> email_field(#[trigger] lines(terminated(c))[k])
                == email_field(lines(c)[k]),
        no_trailing_cr(lines(c)) ==> lines(terminated(c)) =~= lines(c),
{
    if !(c.len() == 0 || c.last() == NL) {
        lemma_lines_push_nl(c);
        let ls = lines(c);
        let last = ls.len() - 1;
        assert forall|k: int|
            0 <= k < ls.len() implies email_field(#[trigger] lines(terminated(c))[k])
            == email_field(ls[k]) by {
            if k == last {
                lemma_field_strip_cr(ls[k]);
            }
        }
        if no_trailing_cr(ls) {
            assert(strip_cr(ls[last]) == ls[last]);
        }
    }
}

/// The lines of the store with a record appended on a line of its own: the
/// lines of the terminated store, then the record.
pub proof fn lemma_lines_appended_record(contents: Seq<u8>, email: Seq<u8>, otp: Seq<u8>)
    requires
        free_of(email, NL),
        free_of(otp, NL),
    ensures
        lines(terminated(contents) + otp_line(email, otp) + seq![NL]) =~= lines(terminated(contents))
            + seq![strip_cr(otp_line(email, otp))],
{
    let t = terminated(contents);
    let rec = otp_line(email, otp);
    assert(t.len() == 0 || t.last() == NL);
    assert(free_of(rec, NL));
    lemma_lines_append(t, rec + seq![NL]);
    lemma_lines_cons(rec, Seq::empty());
    assert(rec + seq![NL] + Seq::<u8>::empty() =~= rec + seq![NL]);
    assert(lines(Seq::<u8>::empty()) =~= Seq::<Seq<u8>>::empty());
    assert(t + rec + seq![NL] =~= t + (rec + seq![NL]));
}

/// Law: once `otp` is recorded for `email`, the store accepts `otp` for
/// `email` and no other password. It holds where `email` is not empty and
/// holds no `:` or `\\n`, and `otp` holds no `:`, `\\n` or `\\r`, whatever
/// the store held before.
pub proof fn law_recorded_otp_accepted(contents: Seq<u8>, email: Seq<u8>, otp: Seq<u8>)
    requires
        email.len() > 0,
        free_of(email, COLON),
        free_of(email, NL),
        free_of(otp, COLON),
        free_of(otp, NL),
        free_of(otp, CR),
    ensures
        stored_otp(recorded(contents, email, otp), email) == Some(otp),
        forall|other: Seq<u8>|
            otp_accepted(recorded(contents, email, otp), email, other) <==> other == otp,
{
    let rec = otp_line(email, otp);
    let ls = lines(contents);
    lemma_second_field_of_record(email, otp);
    lemma_record_line(email, otp);
    lemma_record_no_cr(email, otp);
    if first_record(ls, email) is Some {
        lemma_lines_free_of_nl(contents);
        lemma_lines_rewrite(ls, email, otp);
        let g = |l: Seq<u8>| strip_cr(fix_line(l, email, otp));
        assert forall|k: int| 0 <= k < ls.len() implies is_record_of(g(#[trigger] ls[k]), email)
            == is_record_of(ls[k], email) by {
            lemma_field_strip_cr(ls[k]);
        }
        lemma_first_record_map(ls, g, email);
        let k = lemma_first_record_index(ls, email);
        assert(g(ls[k]) == rec);
        assert(first_record(lines(recorded(contents, email, otp)), email) == Some(rec));
    } else {
        let t = terminated(contents);
        lemma_lines_appended_record(contents, email, otp);
        let tail = seq![rec];
        lemma_lines_terminated(contents);
        lemma_first_record_none(ls, email);
        lemma_first_record_none(lines(t), email);
        lemma_first_record_append(lines(t), tail, email);
        assert(tail[0] == rec);
        assert(first_record(lines(t), email) is None);
        assert(first_record(tail, email) == Some(rec));
        assert(lines(recorded(contents, email, otp)) =~= lines(t) + tail);
    }
    assert(stored_otp(recorded(contents, email, otp), email) == Some(otp));
    assert forall|other: Seq<u8>|
        otp_accepted(recorded(contents, email, otp), email, other) <==> other == otp by {}
}

/// Law: recording a password for `email` leaves what the store holds for
/// any `other` e-mail unchanged. It holds where `email` holds no `:` or
/// `\\n`, `otp` holds no `\\n`, and no line of the store ends with `\\r`.
pub proof fn law_record_keeps_other_records(
    contents: Seq<u8>,
    email: Seq<u8>,
    otp: Seq<u8>,
    other: Seq<u8>,
)
    requires
        free_of(email, COLON),
        free_of(email, NL),
        free_of(otp, NL),
        no_trailing_cr(lines(contents)),
        other != email,
    ensures
        stored_otp(recorded(contents, email, otp), other) == stored_otp(contents, other),
{
    let rec = otp_line(email, otp);
    let ls = lines(contents);
    lemma_record_line(email, otp);
    lemma_field_strip_cr(rec);
    if first_record(ls, email) is Some {
        lemma_lines_free_of_nl(contents);
        lemma_lines_rewrite(ls, email, otp);
        let g = |l: Seq<u8>| strip_cr(fix_line(l, email, otp));
        assert forall|k: int| 0 <= k < ls.len() implies is_record_of(g(#[trigger] ls[k]), other)
            == is_record_of(ls[k], other) by {
            assert(strip_cr(ls[k]) == ls[k]);
        }
        lemma_first_record_map(ls, g, other);
        if first_record(ls, other) is Some {
            let k = lemma_first_record_index(ls, other);
            assert(strip_cr(ls[k]) == ls[k]);
        }
    } else {
        let t = terminated(contents);
        lemma_lines_appended_record(contents, email, otp);
        let tail = seq![strip_cr(rec)];
        lemma_lines_terminated(contents);
        lemma_first_record_append(ls, tail, other);
        assert(tail[0] == strip_cr(rec));
        assert(tail.drop_first() =~= Seq::<Seq<u8>>::empty());
        assert(first_record(tail.drop_first(), other) is None);
        assert(first_record(tail, other) is None);
    }
}

/// Law: the layout of the store after a record. The store ends with `\\n`;
/// its lines are the lines it had, in the same order, the record of `email`
/// replaced by `email:otp`, or `email:otp` added last where there was none;
/// and where the store held at most one record of `email`, it holds exactly
/// one. It holds where `email` holds no `:` or `\\n`, `otp` holds no `\\n` or
/// `\\r`, and no line of the store ends with `\\r`.
pub proof fn law_record_layout(contents: Seq<u8>, email: Seq<u8>, otp: Seq<u8>)
    requires
        free_of(email, COLON),
        free_of(email, NL),
        free_of(otp, NL),
        free_of(otp, CR),
        no_trailing_cr(lines(contents)),
    ensures
        recorded(contents, email, otp).len() > 0,
        recorded(contents, email, otp).last() == NL,
        lines(recorded(contents, email, otp)) =~= (if first_record(lines(contents), email) is Some {
            lines(contents).map_values(|l: Seq<u8>| fix_line(l, email, otp))
        } else {
            lines(contents).push(otp_line(email, otp))
        }),
        at_most_one_record(lines(contents), email) ==> exactly_one_record(
            lines(recorded(contents, email, otp)),
            email,
        ),
{
    let rec = otp_line(email, otp);
    let ls = lines(contents);
    lemma_record_line(email, otp);
    lemma_record_no_cr(email, otp);
    if first_record(ls, email) is Some {
        lemma_lines_free_of_nl(contents);
        lemma_lines_rewrite(ls, email, otp);
        let k0 = lemma_first_record_index(ls, email);
        lemma_rewrite_ends_nl(ls, email, otp);
        let f = |l: Seq<u8>| fix_line(l, email, otp);
        let m = ls.map_values(f);
        assert(ls.map_values(|l: Seq<u8>| strip_cr(fix_line(l, email, otp))) =~= m) by {
            assert forall|k: int| 0 <= k < ls.len() implies strip_cr(fix_line(#[trigger] ls[k], email, otp))
                == fix_line(ls[k], email, otp) by {
                assert(strip_cr(ls[k]) == ls[k]);
            }
        }
        assert forall|k: int| 0 <= k < m.len() implies is_record_of(#[trigger] m[k], email)
            == is_record_of(ls[k], email) by {
            assert(m[k] == f(ls[k]));
        }
        assert(lines(recorded(contents, email, otp)) =~= m);
        if at_most_one_record(ls, email) {
            assert(is_record_of(m[k0], email));
            assert forall|i: int, j: int|
                0 <= i < m.len() && 0 <= j < m.len() && is_record_of(#[trigger] m[i], email)
                    && is_record_of(#[trigger] m[j], email) implies i == j by {
                assert(is_record_of(ls[i], email));
                assert(is_record_of(ls[j], email));
            }
        }
    } else {
        let t = terminated(contents);
        lemma_lines_appended_record(contents, email, otp);
        lemma_lines_terminated(contents);
        lemma_first_record_none(ls, email);
        let n = ls.push(rec);
        assert(lines(recorded(contents, email, otp)) =~= n);
        assert(n[ls.len() as int] == rec);
        assert(is_record_of(n[ls.len() as int], email));
        assert forall|i: int, j: int|
            0 <= i < n.len() && 0 <= j < n.len() && is_record_of(#[trigger] n[i], email)
                && is_record_of(#[trigger] n[j], email) implies i == j by {
            if i < ls.len() {
                assert(n[i] == ls[i]);
            }
            if j < ls.len() {
                assert(n[j] == ls[j]);
            }
        }
    }
}

/// The record line of `email` and `otp` has `otp` as its second field.
pub proof fn lemma_second_field_of_record(email: Seq<u8>, otp: Seq<u8>)
    requires
        free_of(email, COLON),
        free_of(otp, COLON),
    ensures
        second_field(otp_line(email, otp)) == Some(otp),
{
    let l = otp_line(email, otp);
    let n = email.len() as int;
    assert(l.take(n) =~= email);
    assert(is_first(l, COLON, n));
    let i = choose|i: int| is_first(l, COLON, i);
    lemma_first_unique(l, COLON, i, n);
    let rest = l.skip(n + 1);
    assert(rest =~= otp);
    if exists|j: int| is_first(rest, COLON, j) {
        let j = choose|j: int| is_first(rest, COLON, j);
        assert(rest[j] == COLON);
    }
}

/// The record line does not end with `\r` when `otp` does not hold one.
pub proof fn lemma_record_no_cr(email: Seq<u8>, otp: Seq<u8>)
    requires
        free_of(otp, CR),
    ensures
        strip_cr(otp_line(email, otp)) == otp_line(email, otp),
{
    let l = otp_line(email, otp);
    if otp.len() > 0 {
        assert(l.last() == otp[otp.len() - 1]);
    } else {
        assert(l.last() == COLON);
    }
}


/// The smallest one-time password that is drawn.
pub const OTP_LOW: u32 = 100000;

/// One past the largest one-time password that is drawn.
pub const OTP_HIGH: u32 = 999999;

/// The decimal digits of `n`, as `n.to_string()` writes them, in ASCII.
pub open spec fn decimal(n: nat) -> Seq<u8>
    decreases n,
{
    if n < 10 {
        seq![(48 + n) as u8]
    } else {
        decimal(n / 10).push((48 + n % 10) as u8)
    }
}

/// `t` is made of ASCII digits only.
pub open spec fn all_digits(t: Seq<u8>) -> bool {
    forall|k: int| 0 <= k < t.len() ==> 48 <= #[trigger] t[k] <= 57
}

/// The digits of `n` are ASCII digits.
pub proof fn lemma_decimal_digits(n: nat)
    ensures
        all_digits(decimal(n)),
        decimal(n).len() >= 1,
    decreases n,
{
    if n >= 10 {
        lemma_decimal_digits(n / 10);
        let d = decimal(n / 10);
        assert forall|k: int| 0 <= k < decimal(n).len() implies 48 <= #[trigger] decimal(n)[k]
            <= 57 by {
            if k < d.len() {
                assert(decimal(n)[k] == d[k]);
            }
        }
    }
}

/// A six-digit number is written with six digits.
pub proof fn lemma_decimal_six(n: nat)
    requires
        100000 <= n < 1000000,
    ensures
        decimal(n).len() == 6,
{
    assert(decimal(n / 100000).len() == 1);
    assert(decimal(n / 10000).len() == 2);
    assert(decimal(n / 1000).len() == 3);
    assert(decimal(n / 100).len() == 4);
    assert(decimal(n / 10).len() == 5);
}

/// ASCII digits hold no `:`, `\n` or `\r`.
pub proof fn lemma_digits_plain(t: Seq<u8>)
    requires
        all_digits(t),
    ensures
        free_of(t, COLON),
        free_of(t, NL),
        free_of(t, CR),
{
    assert forall|k: int| 0 <= k < t.len() implies t[k] != COLON && t[k] != NL && t[k] != CR by {
        assert(48 <= t[k] <= 57);
    }
}

/// Ten to the power `e`.
pub open spec fn pow10(e: nat) -> nat
    decreases e,
{
    if e == 0 {
        1
    } else {
        10 * pow10((e - 1) as nat)
    }
}

/// Powers of ten are positive.
pub proof fn lemma_pow10_positive(e: nat)
    ensures
        pow10(e) > 0,
    decreases e,
{
    if e > 0 {
        lemma_pow10_positive((e - 1) as nat);
    }
}

/// Law: the text of `n` is its decimal numeral. Read from the left, the
/// digit at position `k` of `L` is `(n / 10^(L-1-k)) % 10` in ASCII; `n` is
/// below `10^L`, and, unless `L` is 1, at least `10^(L-1)`, so that the text
/// has no leading zero.
pub proof fn law_decimal_numeral(n: nat)
    ensures
        forall|k: int|
            0 <= k < decimal(n).len() ==> #[trigger] decimal(n)[k] == 48 + (n / pow10(
                (decimal(n).len() - 1 - k) as nat,
            )) % 10,
        n < pow10(decimal(n).len()),
        decimal(n).len() == 1 || pow10((decimal(n).len() - 1) as nat) <= n,
    decreases n,
{
    if n < 10 {
        assert(pow10(1) == 10) by {
            assert(pow10(0) == 1);
        }
        assert(n / 1 == n);
    } else {
        let q = n / 10;
        law_decimal_numeral(q);
        let d = decimal(q);
        let big = decimal(n);
        assert(big == d.push((48 + n % 10) as u8));
        let l = d.len();
        assert forall|k: int| 0 <= k < big.len() implies #[trigger] big[k] == 48 + (n / pow10(
            (big.len() - 1 - k) as nat,
        )) % 10 by {
            if k == l {
                assert(pow10(0) == 1);
                assert(n / 1 == n);
            } else {
                let m = (l - 1 - k) as nat;
                assert(big[k] == d[k]);
                lemma_pow10_positive(m);
                assert(pow10(m + 1) == 10 * pow10(m));
                vstd::arithmetic::div_mod::lemma_div_denominator(n as int, 10, pow10(m) as int);
                assert((big.len() - 1 - k) as nat == m + 1);
            }
        }
        let p = pow10(l);
        assert(pow10(l + 1) == 10 * p);
        assert(n < 10 * p) by (nonlinear_arith)
            requires
                q == n / 10,
                q < p,
        {}
        if l > 1 {
            let p1 = pow10((l - 1) as nat);
            assert(pow10(l) == 10 * p1);
            assert(10 * p1 <= n) by (nonlinear_arith)
                requires
                    q == n / 10,
                    p1 <= q,
            {}
        } else {
            assert(pow10(1) == 10) by {
                assert(pow10(0) == 1);
            }
        }
    }
}

/// Appends the decimal digits of `n` to `out`: digit `k` of the `L`
/// appended is `(n / 10^(L-1-k)) % 10` in ASCII.
pub fn push_decimal(out: &mut Vec<u8>, n: u32)
    ensures
        final(out)@ =~= old(out)@ + decimal(n as nat),
        forall|k: int|
            0 <= k < final(out)@.len() - old(out)@.len() ==> #[trigger] final(out)@[old(out)@.len()
                + k] == 48 + (n as nat / pow10((final(out)@.len() - old(out)@.len() - 1 - k) as nat)) % 10,
    decreases n,
{
    if n >= 10 {
        push_decimal(out, n / 10);
    }
    out.push(48 + (n % 10) as u8);
    proof {
        law_decimal_numeral(n as nat);
        let start = old(out)@.len();
        assert forall|k: int| 0 <= k < out@.len() - start implies #[trigger] out@[start + k] == 48 + (n as nat
            / pow10((out@.len() - start - 1 - k) as nat)) % 10 by {
            assert(out@[start + k] == decimal(n as nat)[k]);
        }
    }
}

/// The decimal text of `n`: its numeral, digit `k` of `L` being
/// `(n / 10^(L-1-k)) % 10` in ASCII, with no leading zero.
pub fn otp_text(n: u32) -> (r: Vec<u8>)
    ensures
        r@ == decimal(n as nat),
        forall|k: int|
            0 <= k < r@.len() ==> #[trigger] r@[k] == 48 + (n as nat / pow10((r@.len() - 1 - k) as nat))
                % 10,
        n < pow10(r@.len()),
        r@.len() == 1 || pow10((r@.len() - 1) as nat) <= n,
{
    let mut out: Vec<u8> = Vec::new();
    push_decimal(&mut out, n);
    proof {
        law_decimal_numeral(n as nat);
    }
    out
}

/// A number drawn at random with `rand::Rng::gen_range` on the thread-local
/// generator (`rand::thread_rng`). Claimed: the number lies in
/// `low..high`, as the documentation of `gen_range` says; which one is drawn
/// is left open. `gen_range` panics on an empty range, which `requires`
/// rules out; `thread_rng` panics where the operating system cannot seed
/// the generator, which depends on the machine and is not stated.
#[verifier::external_body]
fn random_in_range(low: u32, high: u32) -> (r: u32)
    requires
        low < high,
    ensures
        low <= r < high,
{
    rand::thread_rng().gen_range(low..high)
}

/// A fresh one-time password: a number drawn in `100000..999999`, written
/// in decimal. Whatever is drawn, the password is six ASCII digits, so it
/// holds no `:`, `\n` or `\r`.
pub fn new_otp() -> (r: Vec<u8>)
    ensures
        exists|n: nat| OTP_LOW <= n < OTP_HIGH && r@ == decimal(n),
        exists|n: nat| 100000 <= n < 999999 && r@ == decimal(n),
        r@.len() == 6,
        all_digits(r@),
        free_of(r@, COLON),
        free_of(r@, NL),
        free_of(r@, CR),
{
    let n = random_in_range(OTP_LOW, OTP_HIGH);
    let r = otp_text(n);
    proof {
        lemma_decimal_digits(n as nat);
        lemma_decimal_six(n as nat);
        lemma_digits_plain(r@);
    }
    r
}


/// Law: a freshly drawn password, once recorded for `email`, is accepted
/// for `email`, and no other password is; for every `n` that `new_otp` can
/// draw, where `email` is not empty and holds no `:` or `\n`.
pub proof fn law_fresh_otp_accepted(contents: Seq<u8>, email: Seq<u8>, n: nat)
    requires
        OTP_LOW <= n < OTP_HIGH,
        email.len() > 0,
        free_of(email, COLON),
        free_of(email, NL),
    ensures
        otp_accepted(recorded(contents, email, decimal(n)), email, decimal(n)),
        forall|other: Seq<u8>|
            otp_accepted(recorded(contents, email, decimal(n)), email, other) <==> other
                == decimal(n),
{
    lemma_decimal_digits(n);
    lemma_digits_plain(decimal(n));
    law_recorded_otp_accepted(contents, email, decimal(n));
}

/// A one-time password drawn for `email` and the e-mail that carries it.
pub struct OtpIssue {
    pub otp: Vec<u8>,
    pub mail: MailPlan,
}

/// Draws a one-time password for `email` and plans the e-mail that carries
/// it: the password is six ASCII digits, a number in `100000..999999`, and
/// the text of the e-mail is `message` followed by that same password,
/// which is the one to record in the store.
pub fn issue_otp(email: &str, subject: &str, message: &str) -> (r: OtpIssue)
    ensures
        exists|n: nat| OTP_LOW <= n < OTP_HIGH && r.otp@ == decimal(n),
        exists|n: nat| 100000 <= n < 999999 && r.otp@ == decimal(n),
        r.otp@.len() == 6,
        all_digits(r.otp@),
        free_of(r.otp@, COLON),
        free_of(r.otp@, NL),
        free_of(r.otp@, CR),
        r.mail.from@ == sender(),
        r.mail.to@ == email@,
        r.mail.subject@ == subject@,
        r.mail.body@ == message.spec_bytes() + r.otp@,
        r.mail.attachments@.len() == 0,
        !r.mail.attachments_nested,
{
    let otp = new_otp();
    let mail = otp_mail(email, subject, message, &otp);
    OtpIssue { otp, mail }
}

/// The file that keeps the store named `name`: `name` followed by `.txt`.
pub fn otp_store_file(name: &str) -> (r: String)
    ensures
        r@ == name@ + ".txt"@,
{
    let mut r = String::from_str(name);
    r.append(".txt");
    r
}

/// A submitted OTP form: the e-mail of the user and the password typed in.
pub struct FormData {
    pub email: String,
    pub otp: String,
}

/// The second field of the line `s[from..to]`.
fn second_field_of(s: &[u8], from: usize, to: usize) -> (r: Option<Vec<u8>>)
    requires
        from <= to <= s@.len(),
    ensures
        match r {
            Some(v) => second_field(s@.subrange(from as int, to as int)) == Some(v@),
            None => second_field(s@.subrange(from as int, to as int)) is None,
        },
{
    let line = &s[from..to];
    let ghost l = line@;
    match find_byte_from(line, 0, COLON) {
        None => {
            proof {
                assert(l.skip(0) =~= l);
                if exists|i: int| is_first(l, COLON, i) {
                    let i = choose|i: int| is_first(l, COLON, i);
                    assert(l[i] == COLON);
                }
            }
            None
        },
        Some(i) => {
            assert(l.skip(0) =~= l);
            let start = i + 1;
            let mut out: Vec<u8> = Vec::new();
            proof {
                let i0 = choose|i0: int| is_first(l, COLON, i0);
                lemma_first_unique(l, COLON, i0, i as int);
            }
            let ghost rest = l.skip(start as int);
            match find_byte_from(line, start, COLON) {
                None => {
                    push_range(&mut out, line, start, line.len());
                    proof {
                        if exists|j: int| is_first(rest, COLON, j) {
                            let j = choose|j: int| is_first(rest, COLON, j);
                            assert(rest[j] == COLON);
                        }
                        assert(out@ =~= rest);
                    }
                },
                Some(j) => {
                    push_range(&mut out, line, start, j);
                    proof {
                        let j0 = choose|j0: int| is_first(rest, COLON, j0);
                        lemma_first_unique(rest, COLON, j0, j - start);
                        assert(out@ =~= rest.take(j - start));
                    }
                },
            }
            Some(out)
        },
    }
}

/// Whether the line `s[from..to]` is the record of `email`.
fn is_record_line(s: &[u8], from: usize, to: usize, email: &[u8]) -> (r: bool)
    requires
        from <= to <= s@.len(),
    ensures
        r == is_record_of(s@.subrange(from as int, to as int), email@),
{
    let line = &s[from..to];
    let ghost l = line@;
    proof {
        assert(l.skip(0) =~= l);
    }
    match find_byte_from(line, 0, COLON) {
        None => {
            proof {
                if exists|i: int| is_first(l, COLON, i) {
                    let i = choose|i: int| is_first(l, COLON, i);
                    assert(l[i] == COLON);
                }
            }
            false
        },
        Some(i) => {
            proof {
                let i0 = choose|i0: int| is_first(l, COLON, i0);
                lemma_first_unique(l, COLON, i0, i as int);
            }
            if i != email.len() {
                return false;
            }
            starts_with_at(line, 0, email)
        },
    }
}

/// The password the store `contents` holds for `email`: the second field of
/// the first line whose e-mail field (the text before its first `:`) is
/// `email`; `None` where there is no such line, and for the empty e-mail.
pub fn lookup_otp(contents: &[u8], email: &[u8]) -> (r: Option<Vec<u8>>)
    ensures
        match r {
            None => stored_otp(contents@, email@) is None,
            Some(v) => stored_otp(contents@, email@) == Some(v@),
        },
{
    if email.len() == 0 {
        return None;
    }
    let mut pos: usize = 0;
    assert(contents@.skip(0) =~= contents@);
    while pos < contents.len()
        invariant
            email@.len() > 0,
            pos <= contents@.len(),
            first_record(lines(contents@), email@) == first_record(
                lines(contents@.skip(pos as int)),
                email@,
            ),
        decreases contents@.len() - pos,
    {
        let (end, next) = next_line(contents, pos);
        let ghost l = contents@.subrange(pos as int, end as int);
        let ghost rest = lines(contents@.skip(next as int));
        assert((seq![l] + rest)[0] == l);
        assert((seq![l] + rest).drop_first() =~= rest);
        if is_record_line(contents, pos, end, email) {
            assert(first_record(lines(contents@), email@) == Some(l));
            let field = second_field_of(contents, pos, end);
            assert(stored_otp(contents@, email@) == second_field(l));
            return field;
        }
        pos = next;
    }
    assert(contents@.skip(pos as int) =~= Seq::<u8>::empty());
    None
}

/// Whether the store `contents` holds a record of `email`.
pub fn has_record(contents: &[u8], email: &[u8]) -> (r: bool)
    ensures
        r == first_record(lines(contents@), email@) is Some,
{
    let mut pos: usize = 0;
    assert(contents@.skip(0) =~= contents@);
    while pos < contents.len()
        invariant
            pos <= contents@.len(),
            first_record(lines(contents@), email@) == first_record(
                lines(contents@.skip(pos as int)),
                email@,
            ),
        decreases contents@.len() - pos,
    {
        let (end, next) = next_line(contents, pos);
        let ghost l = contents@.subrange(pos as int, end as int);
        let ghost rest = lines(contents@.skip(next as int));
        assert((seq![l] + rest)[0] == l);
        assert((seq![l] + rest).drop_first() =~= rest);
        if is_record_line(contents, pos, end, email) {
            return true;
        }
        pos = next;
    }
    assert(contents@.skip(pos as int) =~= Seq::<u8>::empty());
    false
}

/// The first of `ls` that begins with `p`.
pub open spec fn first_with_prefix(ls: Seq<Seq<u8>>, p: Seq<u8>) -> Option<Seq<u8>>
    decreases ls.len(),
{
    if ls.len() == 0 {
        None
    } else if starts_with(ls[0], p) {
        Some(ls[0])
    } else {
        first_with_prefix(ls.drop_first(), p)
    }
}

/// The first line of the store that begins with `email` holds no `:`, so
/// that it carries no password field to compare with.
pub open spec fn broken_otp_line(contents: Seq<u8>, email: Seq<u8>) -> bool {
    first_with_prefix(lines(contents), email) matches Some(l) && free_of(l, COLON)
}

/// Whether the first line of the store that begins with `email` holds no
/// `:` (`broken_otp_line`).
pub fn has_broken_otp_line(contents: &[u8], email: &[u8]) -> (r: bool)
    ensures
        r == broken_otp_line(contents@, email@),
{
    let mut pos: usize = 0;
    assert(contents@.skip(0) =~= contents@);
    while pos < contents.len()
        invariant
            pos <= contents@.len(),
            first_with_prefix(lines(contents@), email@) == first_with_prefix(
                lines(contents@.skip(pos as int)),
                email@,
            ),
        decreases contents@.len() - pos,
    {
        let (end, next) = next_line(contents, pos);
        let ghost l = contents@.subrange(pos as int, end as int);
        let ghost rest = lines(contents@.skip(next as int));
        assert((seq![l] + rest)[0] == l);
        assert((seq![l] + rest).drop_first() =~= rest);
        let line = &contents[pos..end];
        assert(line@.skip(0) =~= line@);
        if starts_with_at(line, 0, email) {
            let colon = find_byte_from(line, 0, COLON);
            proof {
                if let Some(i) = colon {
                    assert(line@[i as int] == COLON);
                }
            }
            return colon.is_none();
        }
        pos = next;
    }
    assert(contents@.skip(pos as int) =~= Seq::<u8>::empty());
    false
}

/// Checks the password `otp` typed for `email` against the store `contents`:
/// true exactly where the store holds `otp`, byte for byte, for `email`. A
/// store whose first line beginning with `email` holds no `:` is ruled out
/// (`broken_otp_line`).
pub fn verify_otp(email: &[u8], otp: &[u8], contents: &[u8]) -> (r: bool)
    requires
        !broken_otp_line(contents@, email@),
    ensures
        r == otp_accepted(contents@, email@, otp@),
{
    match lookup_otp(contents, email) {
        Some(stored) => bytes_equal(&stored, otp),
        None => false,
    }
}

/// Whether two byte strings are equal.
pub fn bytes_equal(a: &[u8], b: &[u8]) -> (r: bool)
    ensures
        r == (a@ == b@),
{
    if a.len() != b.len() {
        return false;
    }
    let mut k: usize = 0;
    while k < a.len()
        invariant
            a@.len() == b@.len(),
            k <= a@.len(),
            forall|m: int| 0 <= m < k ==> a@[m] == b@[m],
        decreases a@.len() - k,
    {
        if a[k] != b[k] {
            return false;
        }
        k = k + 1;
    }
    assert(a@ =~= b@);
    true
}

/// The store `contents` after `otp` is recorded for `email`. Where the store
/// holds a record of `email` (a line whose text before the first `:` is
/// `email`), every line is written back followed by `\n`, each record of
/// `email` replaced by `email:otp`; otherwise `email:otp` is appended on a
/// line of its own, after a `\n` that ends the last line where it was
/// open.
pub fn record_otp(contents: &[u8], email: &[u8], otp: &[u8]) -> (r: Vec<u8>)
    ensures
        r@ == recorded(contents@, email@, otp@),
{
    let mut out: Vec<u8> = Vec::new();
    if !has_record(contents, email) {
        push_all(&mut out, contents);
        if contents.len() > 0 && contents[contents.len() - 1] != NL {
            out.push(NL);
        }
        push_all(&mut out, email);
        out.push(COLON);
        push_all(&mut out, otp);
        out.push(NL);
        return out;
    }
    let mut pos: usize = 0;
    assert(contents@.skip(0) =~= contents@);
    while pos < contents.len()
        invariant
            pos <= contents@.len(),
            rewrite_lines(lines(contents@), email@, otp@) =~= out@ + rewrite_lines(
                lines(contents@.skip(pos as int)),
                email@,
                otp@,
            ),
        decreases contents@.len() - pos,
    {
        let (end, next) = next_line(contents, pos);
        let ghost l = contents@.subrange(pos as int, end as int);
        let ghost rest = lines(contents@.skip(next as int));
        assert((seq![l] + rest)[0] == l);
        assert((seq![l] + rest).drop_first() =~= rest);
        if is_record_line(contents, pos, end, email) {
            push_all(&mut out, email);
            out.push(COLON);
            push_all(&mut out, otp);
        } else {
            push_range(&mut out, contents, pos, end);
        }
        out.push(NL);
        pos = next;
    }
    assert(contents@.skip(pos as int) =~= Seq::<u8>::empty());
    out
}

} // verus!
