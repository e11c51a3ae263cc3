//! A lossless, self-describing flat form of a layout entry tree.
//!
//! A tree is written out as a run of tokens; reading the run back yields an
//! identical tree. Children are preceded by their count, so the form needs no
//! escaping and keeps insertion order.

use vstd::prelude::*;
use crate::layout::{Variable, VariablesDict, KeyInfo, VarModel, KeyModel, entries_view, var_view, lemma_entries_view_len};

verus! {

/// One token of the flat form.
#[derive(Debug, Clone)]
pub enum Token {
    Num(usize),
    Text(String),
    Absent,
}

/// Mathematical form of a token.
#[verifier::ext_equal]
pub ghost enum TokModel {
    Num(nat),
    Text(Seq<char>),
    Absent,
}

impl View for Token {
    type V = TokModel;

    open spec fn view(&self) -> TokModel {
        match self {
            Token::Num(n) => TokModel::Num(*n as nat),
            Token::Text(s) => TokModel::Text(s@),
            Token::Absent => TokModel::Absent,
        }
    }
}

/// Mathematical form of a token run.
pub open spec fn deep(s: Seq<Token>) -> Seq<TokModel> {
    s.map_values(|t: Token| t@)
}

/// The token standing for an optional piece of text.
pub open spec fn opt_text_tok(o: Option<Seq<char>>) -> TokModel {
    match o {
        Some(s) => TokModel::Text(s),
        None => TokModel::Absent,
    }
}

/// The token standing for an optional number.
pub open spec fn opt_num_tok(o: Option<nat>) -> TokModel {
    match o {
        Some(n) => TokModel::Num(n),
        None => TokModel::Absent,
    }
}

/// The tokens standing for an optional key descriptor.
pub open spec fn enc_key(k: Option<KeyModel>) -> Seq<TokModel> {
    match k {
        None => seq![TokModel::Absent],
        Some(k) => seq![
            TokModel::Text(k.var_type),
            TokModel::Num(k.offset),
            TokModel::Num(k.slot),
            TokModel::Num(k.size),
            TokModel::Text(k.path),
            TokModel::Text(k.raw_path),
        ],
    }
}

/// The flat form of one layout entry.
pub open spec fn enc_var(m: VarModel) -> Seq<TokModel>
    decreases m, 1int,
{
    seq![
        opt_text_tok(m.name),
        TokModel::Text(m.var_type),
        TokModel::Num(m.offset),
        TokModel::Num(m.slot),
        TokModel::Num(m.size),
        TokModel::Text(m.path),
        TokModel::Text(m.raw_path),
        opt_num_tok(m.length),
    ] + enc_key(m.key) + (match m.values {
        None => seq![TokModel::Absent],
        Some(es) => seq![TokModel::Num(es.len())] + enc_entries(es),
    })
}

/// The flat form of a run of named entries.
pub open spec fn enc_entries(es: Seq<(Seq<char>, VarModel)>) -> Seq<TokModel>
    decreases es, 0int,
{
    if es.len() == 0 {
        Seq::empty()
    } else {
        seq![TokModel::Text(es[0].0)] + enc_var(es[0].1) + enc_entries(es.drop_first())
    }
}

/// Reading one entry back: the entry and the count of tokens consumed.
pub open spec fn dec_var(s: Seq<TokModel>) -> Option<(VarModel, nat)>
    decreases s.len(), 0int,
{
    if s.len() < 9 {
        None
    } else {
        let name = match s[0] {
            TokModel::Text(t) => Some(Some(t)),
            TokModel::Absent => Some(None),
            _ => None,
        };
        let length = match s[7] {
            TokModel::Num(n) => Some(Some(n)),
            TokModel::Absent => Some(None),
            _ => None,
        };
        if name is None || length is None {
            None
        } else if !(s[1] is Text) || !(s[2] is Num) || !(s[3] is Num) || !(s[4] is Num) || !(s[5]
            is Text) || !(s[6] is Text) {
            None
        } else {
            let key: Option<Option<KeyModel>> = match s[8] {
                TokModel::Absent => Some(None),
                TokModel::Text(kt) => if s.len() >= 14 && s[9] is Num && s[10] is Num && s[11]
                    is Num && s[12] is Text && s[13] is Text {
                    Some(
                        Some(
                            KeyModel {
                                var_type: kt,
                                offset: s[9]->Num_0,
                                slot: s[10]->Num_0,
                                size: s[11]->Num_0,
                                path: s[12]->Text_0,
                                raw_path: s[13]->Text_0,
                            },
                        ),
                    )
                } else {
                    None
                },
                _ => None,
            };
            match key {
                None => None,
                Some(key) => {
                    let j: nat = if key is Some {
                        14
                    } else {
                        9
                    };
                    if j >= s.len() {
                        None
                    } else {
                        let partial = VarModel {
                            name: name->Some_0,
                            var_type: s[1]->Text_0,
                            key: key,
                            values: None,
                            offset: s[2]->Num_0,
                            slot: s[3]->Num_0,
                            size: s[4]->Num_0,
                            path: s[5]->Text_0,
                            raw_path: s[6]->Text_0,
                            length: length->Some_0,
                        };
                        match s[j as int] {
                            TokModel::Absent => Some((partial, j + 1)),
                            TokModel::Num(n) => match dec_entries(s.skip(j as int + 1), n) {
                                None => None,
                                Some((es, k2)) => Some(
                                    (VarModel { values: Some(es), ..partial }, j + 1 + k2),
                                ),
                            },
                            _ => None,
                        }
                    }
                },
            }
        }
    }
}

/// Reading `n` named entries back: the entries and the tokens consumed.
pub open spec fn dec_entries(s: Seq<TokModel>, n: nat) -> Option<
    (Seq<(Seq<char>, VarModel)>, nat),
>
    decreases s.len(), 1int,
{
    if n == 0 {
        Some((Seq::empty(), 0))
    } else if s.len() < 1 || !(s[0] is Text) {
        None
    } else {
        match dec_var(s.skip(1)) {
            None => None,
            Some((m, k)) => {
                let kk: nat = if k < 1 {
                    1
                } else {
                    k
                };
                if 1 + kk > s.len() {
                    None
                } else {
                    match dec_entries(s.skip(1 + kk as int), (n - 1) as nat) {
                        None => None,
                        Some((es, k2)) => Some(
                            (seq![(s[0]->Text_0, m)] + es, 1 + kk + k2),
                        ),
                    }
                }
            },
        }
    }
}

/// Law: reading a written entry back yields the entry unchanged — writing is
/// lossless, whatever tokens follow it in the run.
pub proof fn lemma_round_trip_var(m: VarModel, rest: Seq<TokModel>)
    ensures
        dec_var(enc_var(m) + rest) == Some((m, enc_var(m).len())),
    decreases m, 1int,
{
    let s = enc_var(m) + rest;
    let head = seq![
        opt_text_tok(m.name),
        TokModel::Text(m.var_type),
        TokModel::Num(m.offset),
        TokModel::Num(m.slot),
        TokModel::Num(m.size),
        TokModel::Text(m.path),
        TokModel::Text(m.raw_path),
        opt_num_tok(m.length),
    ];
    let vals = match m.values {
        None => seq![TokModel::Absent],
        Some(es) => seq![TokModel::Num(es.len())] + enc_entries(es),
    };
    assert(s =~= head + enc_key(m.key) + vals + rest);
    let j: int = if m.key is Some {
        14
    } else {
        9
    };
    assert(s.skip(j + 1) =~= (match m.values {
        None => Seq::<TokModel>::empty(),
        Some(es) => enc_entries(es),
    }) + rest);
    match m.values {
        None => {},
        Some(es) => {
            lemma_round_trip_entries(es, rest);
            lemma_enc_entries_len(es);
        },
    }
    assert(dec_var(s) matches Some((m2, k2)) && m2 =~~= m);
}

/// A run of written entries holds at least one token per entry.
pub proof fn lemma_enc_entries_len(es: Seq<(Seq<char>, VarModel)>)
    ensures
        enc_entries(es).len() >= es.len(),
    decreases es, 0int,
{
    if es.len() > 0 {
        lemma_enc_entries_len(es.drop_first());
    }
}

/// Law: reading back `n` written entries yields them unchanged and in order.
pub proof fn lemma_round_trip_entries(es: Seq<(Seq<char>, VarModel)>, rest: Seq<TokModel>)
    ensures
        dec_entries(enc_entries(es) + rest, es.len()) == Some((es, enc_entries(es).len())),
    decreases es, 0int,
{
    if es.len() == 0 {
        assert(enc_entries(es) + rest =~= rest);
        assert(dec_entries(rest, 0) == Some((Seq::<(Seq<char>, VarModel)>::empty(), 0nat)));
        assert(es =~= Seq::<(Seq<char>, VarModel)>::empty());
    } else {
        let s = enc_entries(es) + rest;
        let tail_rest = enc_entries(es.drop_first()) + rest;
        assert(s =~= seq![TokModel::Text(es[0].0)] + enc_var(es[0].1) + enc_entries(
            es.drop_first(),
        ) + rest);
        assert(s.skip(1) =~= enc_var(es[0].1) + (enc_entries(es.drop_first()) + rest));
        lemma_round_trip_var(es[0].1, enc_entries(es.drop_first()) + rest);
        let k = enc_var(es[0].1).len();
        assert(k >= 9);
        assert(s.skip(1 + k as int) =~= enc_entries(es.drop_first()) + rest);
        lemma_round_trip_entries(es.drop_first(), rest);
        assert(seq![(es[0].0, es[0].1)] + es.drop_first() =~= es);
        assert(dec_entries(s, es.len()) matches Some((es2, k2)) && es2 =~~= es);
    }
}


/// Reading one entry consumes at least one token and never more than the run.
pub proof fn lemma_dec_var_consumed(s: Seq<TokModel>)
    ensures
        dec_var(s) matches Some((m, k)) ==> 1 <= k <= s.len(),
    decreases s.len(), 0int,
{
    if s.len() >= 9 {
        let j: int = if s[8] is Text {
            14
        } else {
            9
        };
        if j < s.len() {
            if s[j] is Num {
                lemma_dec_entries_consumed(s.skip(j + 1), s[j]->Num_0);
            }
        }
    }
}

/// Reading a run of entries never consumes more tokens than the run holds.
pub proof fn lemma_dec_entries_consumed(s: Seq<TokModel>, n: nat)
    ensures
        dec_entries(s, n) matches Some((es, k2)) ==> k2 <= s.len(),
    decreases s.len(), 1int,
{
    if n > 0 && s.len() >= 1 && s[0] is Text {
        lemma_dec_var_consumed(s.skip(1));
        match dec_var(s.skip(1)) {
            None => {},
            Some((m, k)) => {
                let kk: nat = if k < 1 {
                    1
                } else {
                    k
                };
                if 1 + kk <= s.len() {
                    lemma_dec_entries_consumed(s.skip(1 + kk as int), (n - 1) as nat);
                }
            },
        }
    }
}

/// Append one token, extending the mathematical form by its view.
fn push_tok(out: &mut Vec<Token>, t: Token)
    ensures
        deep(final(out)@) == deep(old(out)@) + seq![t@],
{
    let ghost tv = t@;
    let ghost o = out@;
    out.push(t);
    proof {
        assert(deep(out@) =~= deep(o) + seq![tv]);
    }
}

/// Write one layout entry onto the end of a token run.
pub fn encode_variable(v: &Variable, out: &mut Vec<Token>)
    ensures
        deep(final(out)@) == deep(old(out)@) + enc_var(v@),
    decreases *v, 1int,
{
    let ghost o0 = deep(out@);
    match &v.name {
        Some(s) => push_tok(out, Token::Text(s.clone())),
        None => push_tok(out, Token::Absent),
    }
    push_tok(out, Token::Text(v.var_type.clone()));
    push_tok(out, Token::Num(v.offset));
    push_tok(out, Token::Num(v.slot));
    push_tok(out, Token::Num(v.size));
    push_tok(out, Token::Text(v.path.clone()));
    push_tok(out, Token::Text(v.raw_path.clone()));
    match v.length {
        Some(l) => push_tok(out, Token::Num(l)),
        None => push_tok(out, Token::Absent),
    }
    proof {
        assert(deep(out@) =~= o0 + seq![
            opt_text_tok(v@.name),
            TokModel::Text(v@.var_type),
            TokModel::Num(v@.offset),
            TokModel::Num(v@.slot),
            TokModel::Num(v@.size),
            TokModel::Text(v@.path),
            TokModel::Text(v@.raw_path),
            opt_num_tok(v@.length),
        ]);
    }
    match &v.key {
        None => push_tok(out, Token::Absent),
        Some(k) => {
            push_tok(out, Token::Text(k.var_type.clone()));
            push_tok(out, Token::Num(k.offset));
            push_tok(out, Token::Num(k.slot));
            push_tok(out, Token::Num(k.size));
            push_tok(out, Token::Text(k.path.clone()));
            push_tok(out, Token::Text(k.raw_path.clone()));
        },
    }
    proof {
        assert(deep(out@) =~= o0 + seq![
            opt_text_tok(v@.name),
            TokModel::Text(v@.var_type),
            TokModel::Num(v@.offset),
            TokModel::Num(v@.slot),
            TokModel::Num(v@.size),
            TokModel::Text(v@.path),
            TokModel::Text(v@.raw_path),
            opt_num_tok(v@.length),
        ] + enc_key(v@.key));
    }
    match &v.values {
        None => {
            push_tok(out, Token::Absent);
        },
        Some(d) => {
            proof {
                lemma_entries_view_len(d.entries@);
            }
            push_tok(out, Token::Num(d.entries.len()));
            encode_entries(&d.entries, 0, out);
            proof {
                assert(d.entries@.skip(0) =~= d.entries@);
            }
        },
    }
    proof {
        assert(deep(out@) =~= o0 + enc_var(v@));
    }
}

/// Write the named entries from position `i` on onto the end of a token run.
fn encode_entries(entries: &Vec<(String, Variable)>, i: usize, out: &mut Vec<Token>)
    requires
        i <= entries@.len(),
    ensures
        deep(final(out)@) == deep(old(out)@) + enc_entries(entries_view(entries@.skip(i as int))),
    decreases *entries, (entries@.len() - i) as int,
{
    if i < entries.len() {
        let ghost o0 = deep(out@);
        let (nm, var) = &entries[i];
        push_tok(out, Token::Text(nm.clone()));
        encode_variable(var, out);
        encode_entries(entries, i + 1, out);
        proof {
            let tail = entries@.skip(i as int);
            let tv = entries_view(tail);
            assert(tail[0] == entries@[i as int]);
            assert(tail.drop_first() =~= entries@.skip(i as int + 1));
            assert(tv[0] == (entries@[i as int].0@, var_view(entries@[i as int].1)));
            assert(tv.drop_first() =~= entries_view(entries@.skip(i as int + 1)));
            assert(deep(out@) =~= o0 + enc_entries(tv));
        }
    } else {
        proof {
            assert(entries@.skip(i as int) =~= Seq::<(String, Variable)>::empty());
            assert(deep(out@) =~= deep(out@) + enc_entries(
                entries_view(entries@.skip(i as int)),
            ));
        }
    }
}

/// Read one layout entry back from position `pos` of a token run; yields the
/// entry and the position just past it.
pub fn decode_variable(toks: &Vec<Token>, pos: usize) -> (res: Option<(Variable, usize)>)
    requires
        pos <= toks@.len(),
    ensures
        match dec_var(deep(toks@).skip(pos as int)) {
            Some((m, k)) => res matches Some((v, p2)) && v@ == m && p2 as nat == pos + k,
            None => res is None,
        },
    decreases toks@.len() - pos, 0int,
{
    let ghost s = deep(toks@).skip(pos as int);
    if toks.len() - pos < 9 {
        return None;
    }
    proof {
        assert forall|q: int| 0 <= q < s.len() implies s[q] == toks@[pos + q]@ by {}
    }
    let name: Option<String> = match &toks[pos] {
        Token::Text(t) => Some(t.clone()),
        Token::Absent => None,
        Token::Num(_) => {
            return None;
        },
    };
    let var_type: String = match &toks[pos + 1] {
        Token::Text(t) => t.clone(),
        _ => {
            return None;
        },
    };
    let offset: usize = match &toks[pos + 2] {
        Token::Num(n) => *n,
        _ => {
            return None;
        },
    };
    let slot: usize = match &toks[pos + 3] {
        Token::Num(n) => *n,
        _ => {
            return None;
        },
    };
    let size: usize = match &toks[pos + 4] {
        Token::Num(n) => *n,
        _ => {
            return None;
        },
    };
    let path: String = match &toks[pos + 5] {
        Token::Text(t) => t.clone(),
        _ => {
            return None;
        },
    };
    let raw_path: String = match &toks[pos + 6] {
        Token::Text(t) => t.clone(),
        _ => {
            return None;
        },
    };
    let length: Option<usize> = match &toks[pos + 7] {
        Token::Num(n) => Some(*n),
        Token::Absent => None,
        _ => {
            return None;
        },
    };
    let (key, j): (Option<KeyInfo>, usize) = match &toks[pos + 8] {
        Token::Absent => (None, 9),
        Token::Text(kt) => {
            if toks.len() - pos < 14 {
                return None;
            }
            let k_offset: usize = match &toks[pos + 9] {
                Token::Num(n) => *n,
                _ => {
                    return None;
                },
            };
            let k_slot: usize = match &toks[pos + 10] {
                Token::Num(n) => *n,
                _ => {
                    return None;
                },
            };
            let k_size: usize = match &toks[pos + 11] {
                Token::Num(n) => *n,
                _ => {
                    return None;
                },
            };
            let k_path: String = match &toks[pos + 12] {
                Token::Text(t) => t.clone(),
                _ => {
                    return None;
                },
            };
            let k_raw: String = match &toks[pos + 13] {
                Token::Text(t) => t.clone(),
                _ => {
                    return None;
                },
            };
            (
                Some(
                    KeyInfo {
                        var_type: kt.clone(),
                        offset: k_offset,
                        slot: k_slot,
                        size: k_size,
                        path: k_path,
                        raw_path: k_raw,
                    },
                ),
                14,
            )
        },
        Token::Num(_) => {
            return None;
        },
    };
    if j >= toks.len() - pos {
        return None;
    }
    let (values, end): (Option<VariablesDict>, usize) = match &toks[pos + j] {
        Token::Absent => (None, pos + j + 1),
        Token::Num(n) => {
            proof {
                assert(s.skip(j as int + 1) =~= deep(toks@).skip(pos + j + 1));
            }
            match decode_entries(toks, pos + j + 1, *n) {
                None => {
                    return None;
                },
                Some((d, p2)) => (Some(d), p2),
            }
        },
        Token::Text(_) => {
            return None;
        },
    };
    let variable = Variable { name, var_type, key, values, offset, slot, size, path, raw_path, length };
    proof {
        let (m, k) = dec_var(s)->Some_0;
        assert(variable@ =~~= m);
    }
    Some((variable, end))
}

/// Read `n` named entries back from position `pos` of a token run.
fn decode_entries(toks: &Vec<Token>, pos: usize, n: usize) -> (res: Option<(VariablesDict, usize)>)
    requires
        pos <= toks@.len(),
    ensures
        match dec_entries(deep(toks@).skip(pos as int), n as nat) {
            Some((es, k2)) => res matches Some((d, p2)) && d@ == es && p2 as nat == pos + k2,
            None => res is None,
        },
    decreases toks@.len() - pos, 1int,
{
    let ghost s = deep(toks@).skip(pos as int);
    if n == 0 {
        let d = VariablesDict::new();
        return Some((d, pos));
    }
    if pos == toks.len() {
        return None;
    }
    proof {
        assert(s[0] == toks@[pos as int]@);
        assert(s.skip(1) =~= deep(toks@).skip(pos as int + 1));
    }
    let nm: String = match &toks[pos] {
        Token::Text(t) => t.clone(),
        _ => {
            return None;
        },
    };
    let (var, p2) = match decode_variable(toks, pos + 1) {
        None => {
            return None;
        },
        Some(r) => r,
    };
    let ghost k = (p2 - (pos + 1)) as nat;
    proof {
        lemma_dec_var_consumed(s.skip(1));
        assert(dec_var(s.skip(1)) matches Some((m, kk)) && kk == k && var@ == m);
        assert(1 <= k && 1 + k <= s.len());
        assert(s.skip(1 + k as int) =~= deep(toks@).skip(p2 as int));
    }
    let (mut d, p3) = match decode_entries(toks, p2, n - 1) {
        None => {
            return None;
        },
        Some(r) => r,
    };
    let ghost d0 = d.entries@;
    d.entries.insert(0, (nm, var));
    proof {
        assert(d.entries@.len() == d0.len() + 1);
        assert(d.entries@.drop_first() =~= d0);
        assert(entries_view(d.entries@) == seq![(d.entries@[0].0@, var_view(d.entries@[0].1))]
            + entries_view(d.entries@.drop_first()));
        let (es, k2) = dec_entries(s, n as nat)->Some_0;
        assert(entries_view(d.entries@) =~= es);
    }
    Some((d, p3))
}

} // verus!
