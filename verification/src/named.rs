use vstd::prelude::*;

use crate::entities::NamedEntityView;
use crate::entities::any_name_extends;
use crate::entities::extends_to_name;
use crate::entities::find_entry;
use crate::entities::is_alphanumeric;
use crate::entities::is_alphanumeric_char;
use crate::entities::lookup_name;
use crate::errors::ParseErrorKind;
use crate::tokenizer::DecodeEffect;
use crate::tokenizer::Tokenizer;

verus! {

/// Whether a legacy name, matched without its closing semicolon, may be
/// taken: outside an attribute value always; inside one only when the
/// character that follows the name is neither alphanumeric nor `=`.
pub open spec fn legacy_allowed(in_attribute: bool, next: Option<char>) -> bool {
    !in_attribute || match next {
        None => true,
        Some(c) => !is_alphanumeric_char(c) && c != '=',
    }
}

/// How many characters past the first the greedy matcher consumes: it
/// keeps reading while the next character is alphanumeric and the run so
/// far, extended by it, is still a prefix of some table name.
pub open spec fn greedy_len(tbl: Seq<NamedEntityView>, run: Seq<char>, s: Seq<char>) -> nat
    decreases s.len(),
{
    if s.len() > 0 && is_alphanumeric_char(s[0]) && extends_to_name(tbl, run.push(s[0])) {
        1 + greedy_len(tbl, run.push(s[0]), s.drop_first())
    } else {
        0
    }
}

/// Whether the first `l` characters of `run` form a legacy name that may
/// be taken here, followed as it is by `run[l]`.
pub open spec fn is_legacy_prefix_at(
    tbl: Seq<NamedEntityView>,
    in_attribute: bool,
    run: Seq<char>,
    l: nat,
) -> bool {
    &&& 0 < l < run.len()
    &&& lookup_name(tbl, run.take(l as int)) is Some
    &&& lookup_name(tbl, run.take(l as int))->0.semicolon_optional
    &&& legacy_allowed(in_attribute, Some(run[l as int]))
}

/// The largest length, at most `l`, at which a proper prefix of `run` is
/// a legacy name that may be taken here; zero when there is none.
pub open spec fn legacy_prefix_upto(
    tbl: Seq<NamedEntityView>,
    in_attribute: bool,
    run: Seq<char>,
    l: nat,
) -> nat
    decreases l,
{
    if l == 0 {
        0
    } else if is_legacy_prefix_at(tbl, in_attribute, run, l) {
        l
    } else {
        legacy_prefix_upto(tbl, in_attribute, run, (l - 1) as nat)
    }
}

/// The full effect of the named decoder on a tokenizer whose unread input
/// is `s`, with `first` the character the caller already read. The greedy
/// run together with `first` forms the candidate name. A candidate that
/// is a table name and is followed by `;` consumes the semicolon and
/// emits its expansion. Failing that, a candidate that is a legacy name
/// is taken without the semicolon, with an error; the matcher also steps
/// one character back for a legacy name one shorter than the run, and
/// for the longest legacy name shorter still it emits the expansion
/// followed by the over-read tail of the run as literal text — the
/// stream allows only a single push-back, so those characters cannot be
/// returned to it. Otherwise the literally consumed characters stay in
/// the buffer and an error is recorded.
pub open spec fn named_effect(
    tbl: Seq<NamedEntityView>,
    in_attribute: bool,
    first: char,
    s: Seq<char>,
) -> DecodeEffect {
    let g = greedy_len(tbl, seq![first], s);
    let cand = seq![first] + s.take(g as int);
    let next: Option<char> = if g < s.len() {
        Some(s[g as int])
    } else {
        None
    };
    if next == Some(';') && lookup_name(tbl, cand) is Some {
        DecodeEffect {
            consumed: g + 1,
            emitted: lookup_name(tbl, cand)->0.expansion,
            errors: Seq::<ParseErrorKind>::empty(),
        }
    } else if lookup_name(tbl, cand) is Some && lookup_name(tbl, cand)->0.semicolon_optional
        && legacy_allowed(in_attribute, next) {
        DecodeEffect {
            consumed: g,
            emitted: lookup_name(tbl, cand)->0.expansion,
            errors: seq![ParseErrorKind::MissingSemicolonAfterName],
        }
    } else if cand.len() >= 2 && lookup_name(tbl, cand.drop_last()) is Some && lookup_name(
        tbl,
        cand.drop_last(),
    )->0.semicolon_optional && legacy_allowed(in_attribute, Some(cand.last())) {
        DecodeEffect {
            consumed: (g - 1) as nat,
            emitted: lookup_name(tbl, cand.drop_last())->0.expansion,
            errors: seq![ParseErrorKind::MissingSemicolonAfterName],
        }
    } else if legacy_prefix_upto(tbl, in_attribute, cand, (cand.len() - 1) as nat) > 0 {
        let l = legacy_prefix_upto(tbl, in_attribute, cand, (cand.len() - 1) as nat);
        DecodeEffect {
            consumed: g,
            emitted: lookup_name(tbl, cand.take(l as int))->0.expansion + cand.skip(l as int),
            errors: seq![ParseErrorKind::MissingSemicolonAfterName],
        }
    } else {
        DecodeEffect {
            consumed: g,
            emitted: cand,
            errors: seq![ParseErrorKind::UnknownNamedReference],
        }
    }
}

/// Decides whether a legacy match without its semicolon may be taken.
fn legacy_ok(in_attribute: bool, next: Option<char>) -> (r: bool)
    ensures
        r == legacy_allowed(in_attribute, next),
{
    if !in_attribute {
        return true;
    }
    match next {
        None => true,
        Some(c) => !is_alphanumeric(c) && c != '=',
    }
}

/// Append the expansion of the table entry at `i` to the consume buffer.
fn emit_expansion(t: &mut Tokenizer, i: usize)
    requires
        old(t).wf(),
        i < old(t).entities@.len(),
    ensures
        final(t).wf(),
        final(t).stream == old(t).stream,
        final(t).errors == old(t).errors,
        final(t).entities == old(t).entities,
        final(t).consume_buffer@ == old(t).consume_buffer@ + old(t).entities@[
            i as int
        ].expansion,
{
    proof {
        assert(t.entities@[i as int] == t.entities.entries@[i as int]@);
        assert(t.consume_buffer@ + t.entities@[i as int].expansion.take(0) =~= t.consume_buffer@);
    }
    let n = t.entities.entries[i].expansion.len();
    let mut j: usize = 0;
    while j < n
        invariant
            t.wf(),
            i < t.entities@.len(),
            i < t.entities.entries@.len(),
            n == t.entities@[i as int].expansion.len(),
            j <= n,
            t.entities == old(t).entities,
            t.stream == old(t).stream,
            t.errors == old(t).errors,
            t.consume_buffer@ == old(t).consume_buffer@ + t.entities@[i as int].expansion.take(
                j as int,
            ),
        decreases n - j,
    {
        proof {
            assert(t.entities@[i as int] == t.entities.entries@[i as int]@);
        }
        let ch = t.entities.entries[i].expansion[j];
        t.consume(ch);
        proof {
            let exp = t.entities@[i as int].expansion;
            assert(exp.take(j as int + 1) =~= exp.take(j as int).push(ch));
            assert(t.consume_buffer@ =~= old(t).consume_buffer@ + exp.take(j as int + 1));
        }
        j = j + 1;
    }
    proof {
        let exp = t.entities@[i as int].expansion;
        assert(exp.take(n as int) =~= exp);
    }
}

/// Decode a named reference: `first` is the character the caller already
/// read after the ampersand; the candidate name grows greedily while it
/// stays a prefix of some table name, and is then resolved against the
/// table, preferring a semicolon-terminated match, then a legacy match of
/// the whole run, then a legacy match one character shorter (pushed back
/// onto the stream), then the longest legacy name shorter still, whose
/// over-read tail stays in the buffer as literal text. The net effect on
/// the tokenizer is exactly [`named_effect`] of the unread input.
pub fn consume_anything_else(t: &mut Tokenizer, first: char, in_attribute: bool)
    requires
        old(t).wf(),
    ensures
        final(t).wf(),
        final(t).stream.chars@ == old(t).stream.chars@,
        final(t).entities == old(t).entities,
        ({
            let eff = named_effect(old(t).entities@, in_attribute, first, old(t).remaining());
            &&& final(t).stream.pos == old(t).stream.pos + eff.consumed
            &&& final(t).consume_buffer@ == old(t).consume_buffer@ + eff.emitted
            &&& final(t).errors@ == old(t).errors@ + eff.errors
        }),
{
    let ghost s = old(t).remaining();
    let ghost tbl = old(t).entities@;
    let ghost g = greedy_len(tbl, seq![first], s);

    let len = t.get_consume_len();
    t.consume(first);
    let mut cand: Vec<char> = Vec::new();
    cand.push(first);
    let mut k: usize = 0;
    proof {
        assert(cand@ =~= seq![first] + s.take(0));
        assert(s.skip(0) =~= s);
        assert(t.consume_buffer@ =~= old(t).consume_buffer@ + cand@);
    }

    // Grow the candidate while it stays a prefix of some table name.
    loop
        invariant
            t.wf(),
            t.stream.chars@ == old(t).stream.chars@,
            t.entities == old(t).entities,
            t.errors@ == old(t).errors@,
            tbl == old(t).entities@,
            s == old(t).remaining(),
            g == greedy_len(tbl, seq![first], s),
            k <= s.len(),
            k <= g,
            t.stream.pos == old(t).stream.pos + k,
            t.remaining() == s.skip(k as int),
            cand@ == seq![first] + s.take(k as int),
            t.consume_buffer@ == old(t).consume_buffer@ + cand@,
            greedy_len(tbl, cand@, s.skip(k as int)) == g - k,
        ensures
            t.wf(),
            t.stream.chars@ == old(t).stream.chars@,
            t.entities == old(t).entities,
            t.errors@ == old(t).errors@,
            k == g,
            t.stream.pos == old(t).stream.pos + k,
            t.remaining() == s.skip(k as int),
            cand@ == seq![first] + s.take(k as int),
            t.consume_buffer@ == old(t).consume_buffer@ + cand@,
        decreases s.len() - k,
    {
        let la = t.stream.look_ahead();
        let c = match la {
            None => {
                proof {
                    assert(s.skip(k as int).len() == 0);
                }
                break ;
            },
            Some(c) => c,
        };
        proof {
            assert(s.skip(k as int)[0] == c);
        }
        let mut take_it = is_alphanumeric(c);
        if take_it {
            take_it = any_name_extends(&t.entities, &cand, c);
        }
        if !take_it {
            proof {
                assert(greedy_len(tbl, cand@, s.skip(k as int)) == 0);
            }
            break ;
        }
        let r = t.stream.read_char();
        match r {
            Some(rc) => {
                t.consume(rc);
            },
            None => {
                proof {
                    assert(false);
                }
            },
        }
        cand.push(c);
        proof {
            assert(s[k as int] == c);
            assert(s.skip(k as int).drop_first() =~= s.skip(k as int + 1));
            assert(cand@ =~= seq![first] + s.take(k as int + 1));
            assert(t.consume_buffer@ =~= old(t).consume_buffer@ + cand@);
            assert(t.remaining() =~= s.skip(k as int + 1));
        }
        k = k + 1;
    }

    // Resolve the candidate against the table.
    let next = t.stream.look_ahead();
    let ghost nextg: Option<char> = if g < s.len() {
        Some(s[g as int])
    } else {
        None
    };
    proof {
        if g < s.len() {
            assert(s.skip(g as int)[0] == s[g as int]);
        }
        assert(next == nextg);
    }
    let semi = match next {
        Some(c) => c == ';',
        None => false,
    };
    let m = find_entry(&t.entities, &cand);

    // A semicolon-terminated match: consume the `;` and emit.
    if semi {
        match m {
            Some(i) => {
                let r2 = t.stream.read_char();
                match r2 {
                    Some(_) => {},
                    None => {
                        proof {
                            assert(false);
                        }
                    },
                }
                t.set_consume_len(len);
                proof {
                    assert(t.consume_buffer@ =~= old(t).consume_buffer@);
                }
                emit_expansion(t, i);
                proof {
                    assert(t.errors@ =~= old(t).errors@ + Seq::<ParseErrorKind>::empty());
                }
                return ;
            },
            None => {},
        }
    }

    // A legacy match of the whole run, without its semicolon.
    let mut done = false;
    match m {
        Some(i) => {
            proof {
                assert(t.entities@[i as int] == t.entities.entries@[i as int]@);
            }
            if t.entities.entries[i].semicolon_optional && legacy_ok(in_attribute, next) {
                t.set_consume_len(len);
                proof {
                    assert(t.consume_buffer@ =~= old(t).consume_buffer@);
                }
                emit_expansion(t, i);
                t.parse_error(ParseErrorKind::MissingSemicolonAfterName);
                proof {
                    assert(t.errors@ =~= old(t).errors@ + seq![
                        ParseErrorKind::MissingSemicolonAfterName,
                    ]);
                }
                done = true;
            }
        },
        None => {},
    }

    // A legacy match one character shorter: push the last character back.
    if !done && cand.len() >= 2 {
        let last = cand[cand.len() - 1];
        let ghost full = cand@;
        cand.pop();
        proof {
            assert(cand@ =~= full.drop_last());
            assert(full.last() == last);
        }
        let m2 = find_entry(&t.entities, &cand);
        match m2 {
            Some(j) => {
                proof {
                    assert(t.entities@[j as int] == t.entities.entries@[j as int]@);
                }
                if t.entities.entries[j].semicolon_optional && legacy_ok(
                    in_attribute,
                    Some(last),
                ) {
                    t.stream.unread();
                    t.set_consume_len(len);
                    proof {
                        assert(t.consume_buffer@ =~= old(t).consume_buffer@);
                    }
                    emit_expansion(t, j);
                    t.parse_error(ParseErrorKind::MissingSemicolonAfterName);
                    proof {
                        assert(t.errors@ =~= old(t).errors@ + seq![
                            ParseErrorKind::MissingSemicolonAfterName,
                        ]);
                    }
                    done = true;
                }
            },
            None => {},
        }
        cand.push(last);
        proof {
            assert(cand@ =~= full);
        }
        if !done {
            proof {
                assert(full.take(full.len() - 1) =~= full.drop_last());
                assert(!is_legacy_prefix_at(tbl, in_attribute, full, (full.len() - 1) as nat));
                assert(legacy_prefix_upto(tbl, in_attribute, full, (full.len() - 1) as nat)
                    == legacy_prefix_upto(tbl, in_attribute, full, (full.len() - 2) as nat));
                if full.len() == 2 {
                    assert(legacy_prefix_upto(tbl, in_attribute, full, 0) == 0);
                }
            }
        }
    }

    // The longest legacy name shorter still: its expansion is emitted and
    // the over-read tail of the run stays behind it as literal text — the
    // stream allows only a single push-back, so the tail cannot go back.
    if !done && cand.len() > 2 {
        let ghost full = cand@;
        let mut prefix: Vec<char> = Vec::new();
        let mut i: usize = 0;
        while i < cand.len() - 2
            invariant
                cand@ == full,
                full.len() > 2,
                i <= full.len() - 2,
                prefix@ == full.take(i as int),
            decreases full.len() - i,
        {
            let ch = cand[i];
            prefix.push(ch);
            proof {
                assert(prefix@ =~= full.take(i as int + 1));
            }
            i = i + 1;
        }
        while prefix.len() > 0
            invariant
                t.wf(),
                t.stream.chars@ == old(t).stream.chars@,
                t.stream.pos == old(t).stream.pos + g,
                t.entities == old(t).entities,
                t.errors@ == old(t).errors@,
                t.consume_buffer@ == old(t).consume_buffer@ + full,
                len == old(t).consume_buffer@.len(),
                tbl == old(t).entities@,
                cand@ == full,
                full == seq![first] + s.take(g as int),
                g == greedy_len(tbl, seq![first], s),
                s == old(t).remaining(),
                prefix@ == full.take(prefix.len() as int),
                prefix@.len() <= full.len() - 2,
                legacy_prefix_upto(tbl, in_attribute, full, (full.len() - 1) as nat)
                    == legacy_prefix_upto(tbl, in_attribute, full, prefix.len() as nat),
                ({
                    let up = legacy_prefix_upto(tbl, in_attribute, full, (full.len() - 1) as nat);
                    let eff = named_effect(tbl, in_attribute, first, s);
                    &&& (up > 0 ==> eff == (DecodeEffect {
                        consumed: g,
                        emitted: lookup_name(tbl, full.take(up as int))->0.expansion + full.skip(
                            up as int,
                        ),
                        errors: seq![ParseErrorKind::MissingSemicolonAfterName],
                    }))
                    &&& (up == 0 ==> eff == (DecodeEffect {
                        consumed: g,
                        emitted: full,
                        errors: seq![ParseErrorKind::UnknownNamedReference],
                    }))
                }),
            decreases prefix.len(),
        {
            let l = prefix.len();
            let m3 = find_entry(&t.entities, &prefix);
            match m3 {
                Some(j) => {
                    proof {
                        assert(t.entities@[j as int] == t.entities.entries@[j as int]@);
                    }
                    let follow = cand[l];
                    if t.entities.entries[j].semicolon_optional && legacy_ok(
                        in_attribute,
                        Some(follow),
                    ) {
                        proof {
                            assert(is_legacy_prefix_at(tbl, in_attribute, full, l as nat));
                            assert(legacy_prefix_upto(
                                tbl,
                                in_attribute,
                                full,
                                (full.len() - 1) as nat,
                            ) == l);
                        }
                        t.set_consume_len(len);
                        proof {
                            assert(t.consume_buffer@ =~= old(t).consume_buffer@);
                        }
                        emit_expansion(t, j);
                        let mut i2: usize = l;
                        while i2 < cand.len()
                            invariant
                                t.wf(),
                                t.stream.chars@ == old(t).stream.chars@,
                                t.stream.pos == old(t).stream.pos + g,
                                t.entities == old(t).entities,
                                t.errors@ == old(t).errors@,
                                tbl == old(t).entities@,
                                cand@ == full,
                                j < tbl.len(),
                                l <= i2 <= full.len(),
                                t.consume_buffer@ == old(t).consume_buffer@ + tbl[
                                    j as int
                                ].expansion + full.subrange(l as int, i2 as int),
                            decreases full.len() - i2,
                        {
                            let ch = cand[i2];
                            t.consume(ch);
                            proof {
                                assert(full.subrange(l as int, i2 as int + 1) =~= full.subrange(
                                    l as int,
                                    i2 as int,
                                ).push(ch));
                                assert(t.consume_buffer@ =~= old(t).consume_buffer@ + tbl[
                                    j as int
                                ].expansion + full.subrange(l as int, i2 as int + 1));
                            }
                            i2 = i2 + 1;
                        }
                        t.parse_error(ParseErrorKind::MissingSemicolonAfterName);
                        proof {
                            assert(full.subrange(l as int, full.len() as int) =~= full.skip(
                                l as int,
                            ));
                            assert(t.consume_buffer@ =~= old(t).consume_buffer@ + (tbl[
                                j as int
                            ].expansion + full.skip(l as int)));
                            assert(t.errors@ =~= old(t).errors@ + seq![
                                ParseErrorKind::MissingSemicolonAfterName,
                            ]);
                        }
                        return ;
                    }
                },
                None => {},
            }
            proof {
                assert(!is_legacy_prefix_at(tbl, in_attribute, full, l as nat));
            }
            let ghost before = prefix@;
            prefix.pop();
            proof {
                assert(prefix@ =~= before.drop_last());
                assert(prefix@ =~= full.take(l as int - 1));
            }
        }
        proof {
            assert(legacy_prefix_upto(tbl, in_attribute, full, 0) == 0);
        }
    }

    // No match: the literally consumed characters stay in the buffer.
    if !done {
        t.parse_error(ParseErrorKind::UnknownNamedReference);
        proof {
            assert(t.errors@ =~= old(t).errors@ + seq![ParseErrorKind::UnknownNamedReference]);
        }
    }
}

} // verus!
