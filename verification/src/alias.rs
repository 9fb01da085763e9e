//! Alias resolution: maps a capitalized tag token to its canonical display
//! form. Rules are checked in a fixed priority order; the first match wins,
//! and a token that matches no rule is returned unchanged.

use vstd::prelude::*;

use crate::bytes::contains_seq;
use crate::bytes::contains;
use crate::bytes::seq_eq;

verus! {

pub open spec fn lit_game() -> Seq<u8> {
    seq![71u8, 97u8, 109u8, 101u8]
}

pub open spec fn lit_watch() -> Seq<u8> {
    seq![87u8, 97u8, 116u8, 99u8, 104u8]
}

pub open spec fn lit_game_and_watch() -> Seq<u8> {
    seq![71u8, 97u8, 109u8, 101u8, 32u8, 38u8, 32u8, 87u8, 97u8, 116u8, 99u8, 104u8]
}

pub open spec fn lit_banjo() -> Seq<u8> {
    seq![66u8, 97u8, 110u8, 106u8, 111u8]
}

pub open spec fn lit_kazooie() -> Seq<u8> {
    seq![75u8, 97u8, 122u8, 111u8, 111u8, 105u8, 101u8]
}

pub open spec fn lit_rosalina() -> Seq<u8> {
    seq![82u8, 111u8, 115u8, 97u8, 108u8, 105u8, 110u8, 97u8]
}

pub open spec fn lit_rosalina_and_luma() -> Seq<u8> {
    seq![
        82u8,
        111u8,
        115u8,
        97u8,
        108u8,
        105u8,
        110u8,
        97u8,
        32u8,
        38u8,
        32u8,
        76u8,
        117u8,
        109u8,
        97u8,
    ]
}

pub open spec fn lit_pyra() -> Seq<u8> {
    seq![80u8, 121u8, 114u8, 97u8]
}

pub open spec fn lit_mythra() -> Seq<u8> {
    seq![77u8, 121u8, 116u8, 104u8, 114u8, 97u8]
}

pub open spec fn lit_aegis() -> Seq<u8> {
    seq![65u8, 101u8, 103u8, 105u8, 115u8]
}

pub open spec fn lit_gw_tight() -> Seq<u8> {
    seq![71u8, 38u8, 119u8]
}

pub open spec fn lit_gw_spaced() -> Seq<u8> {
    seq![71u8, 32u8, 38u8, 32u8, 87u8]
}

pub open spec fn lit_dk() -> Seq<u8> {
    seq![68u8, 107u8]
}

pub open spec fn lit_donkey_kong() -> Seq<u8> {
    seq![68u8, 111u8, 110u8, 107u8, 101u8, 121u8, 32u8, 75u8, 111u8, 110u8, 103u8]
}

fn bytes_game() -> (v: Vec<u8>)
    ensures
        v@ == lit_game(),
{
    let mut v: Vec<u8> = Vec::new();
    v.push(71);
    v.push(97);
    v.push(109);
    v.push(101);
    proof {
        assert(v@ =~= lit_game());
    }
    v
}

fn bytes_watch() -> (v: Vec<u8>)
    ensures
        v@ == lit_watch(),
{
    let mut v: Vec<u8> = Vec::new();
    v.push(87);
    v.push(97);
    v.push(116);
    v.push(99);
    v.push(104);
    proof {
        assert(v@ =~= lit_watch());
    }
    v
}

fn bytes_game_and_watch() -> (v: Vec<u8>)
    ensures
        v@ == lit_game_and_watch(),
{
    let mut v: Vec<u8> = Vec::new();
    v.push(71);
    v.push(97);
    v.push(109);
    v.push(101);
    v.push(32);
    v.push(38);
    v.push(32);
    v.push(87);
    v.push(97);
    v.push(116);
    v.push(99);
    v.push(104);
    proof {
        assert(v@ =~= lit_game_and_watch());
    }
    v
}

fn bytes_banjo() -> (v: Vec<u8>)
    ensures
        v@ == lit_banjo(),
{
    let mut v: Vec<u8> = Vec::new();
    v.push(66);
    v.push(97);
    v.push(110);
    v.push(106);
    v.push(111);
    proof {
        assert(v@ =~= lit_banjo());
    }
    v
}

fn bytes_kazooie() -> (v: Vec<u8>)
    ensures
        v@ == lit_kazooie(),
{
    let mut v: Vec<u8> = Vec::new();
    v.push(75);
    v.push(97);
    v.push(122);
    v.push(111);
    v.push(111);
    v.push(105);
    v.push(101);
    proof {
        assert(v@ =~= lit_kazooie());
    }
    v
}

fn bytes_rosalina() -> (v: Vec<u8>)
    ensures
        v@ == lit_rosalina(),
{
    let mut v: Vec<u8> = Vec::new();
    v.push(82);
    v.push(111);
    v.push(115);
    v.push(97);
    v.push(108);
    v.push(105);
    v.push(110);
    v.push(97);
    proof {
        assert(v@ =~= lit_rosalina());
    }
    v
}

fn bytes_rosalina_and_luma() -> (v: Vec<u8>)
    ensures
        v@ == lit_rosalina_and_luma(),
{
    let mut v: Vec<u8> = Vec::new();
    v.push(82);
    v.push(111);
    v.push(115);
    v.push(97);
    v.push(108);
    v.push(105);
    v.push(110);
    v.push(97);
    v.push(32);
    v.push(38);
    v.push(32);
    v.push(76);
    v.push(117);
    v.push(109);
    v.push(97);
    proof {
        assert(v@ =~= lit_rosalina_and_luma());
    }
    v
}

fn bytes_pyra() -> (v: Vec<u8>)
    ensures
        v@ == lit_pyra(),
{
    let mut v: Vec<u8> = Vec::new();
    v.push(80);
    v.push(121);
    v.push(114);
    v.push(97);
    proof {
        assert(v@ =~= lit_pyra());
    }
    v
}

fn bytes_mythra() -> (v: Vec<u8>)
    ensures
        v@ == lit_mythra(),
{
    let mut v: Vec<u8> = Vec::new();
    v.push(77);
    v.push(121);
    v.push(116);
    v.push(104);
    v.push(114);
    v.push(97);
    proof {
        assert(v@ =~= lit_mythra());
    }
    v
}

fn bytes_aegis() -> (v: Vec<u8>)
    ensures
        v@ == lit_aegis(),
{
    let mut v: Vec<u8> = Vec::new();
    v.push(65);
    v.push(101);
    v.push(103);
    v.push(105);
    v.push(115);
    proof {
        assert(v@ =~= lit_aegis());
    }
    v
}

fn bytes_gw_tight() -> (v: Vec<u8>)
    ensures
        v@ == lit_gw_tight(),
{
    let mut v: Vec<u8> = Vec::new();
    v.push(71);
    v.push(38);
    v.push(119);
    proof {
        assert(v@ =~= lit_gw_tight());
    }
    v
}

fn bytes_gw_spaced() -> (v: Vec<u8>)
    ensures
        v@ == lit_gw_spaced(),
{
    let mut v: Vec<u8> = Vec::new();
    v.push(71);
    v.push(32);
    v.push(38);
    v.push(32);
    v.push(87);
    proof {
        assert(v@ =~= lit_gw_spaced());
    }
    v
}

fn bytes_dk() -> (v: Vec<u8>)
    ensures
        v@ == lit_dk(),
{
    let mut v: Vec<u8> = Vec::new();
    v.push(68);
    v.push(107);
    proof {
        assert(v@ =~= lit_dk());
    }
    v
}

fn bytes_donkey_kong() -> (v: Vec<u8>)
    ensures
        v@ == lit_donkey_kong(),
{
    let mut v: Vec<u8> = Vec::new();
    v.push(68);
    v.push(111);
    v.push(110);
    v.push(107);
    v.push(101);
    v.push(121);
    v.push(32);
    v.push(75);
    v.push(111);
    v.push(110);
    v.push(103);
    proof {
        assert(v@ =~= lit_donkey_kong());
    }
    v
}

/// The canonical name an alias rule assigns to a token, if any rule matches.
/// Rules are checked in priority order and the first match wins; substring
/// checks are case-sensitive over the already-capitalized token.
pub open spec fn identify_spec(s: Seq<u8>) -> Option<Seq<u8>> {
    if contains_seq(s, lit_game()) || contains_seq(s, lit_watch()) {
        Some(lit_game_and_watch())
    } else if contains_seq(s, lit_banjo()) || contains_seq(s, lit_kazooie()) {
        Some(lit_game_and_watch())
    } else if contains_seq(s, lit_rosalina()) {
        Some(lit_rosalina_and_luma())
    } else if (contains_seq(s, lit_pyra()) && contains_seq(s, lit_mythra())) || contains_seq(
        s,
        lit_aegis(),
    ) {
        Some(lit_aegis())
    } else if s == lit_gw_tight() || s == lit_gw_spaced() {
        Some(lit_game_and_watch())
    } else if s == lit_dk() {
        Some(lit_donkey_kong())
    } else {
        None
    }
}

/// Total alias resolution: the canonical name when a rule matches, the token
/// unchanged otherwise.
pub open spec fn resolve_spec(s: Seq<u8>) -> Seq<u8> {
    match identify_spec(s) {
        Some(c) => c,
        None => s,
    }
}

/// The alias table lookup: `Some` canonical name when an alias rule matches
/// the token, `None` otherwise.
pub fn identify_character(token: &Vec<u8>) -> (r: Option<Vec<u8>>)
    ensures
        match r {
            Some(c) => identify_spec(token@) == Some(c@),
            None => identify_spec(token@) is None,
        },
{
    if contains(token, &bytes_game()) || contains(token, &bytes_watch()) {
        return Some(bytes_game_and_watch());
    }
    if contains(token, &bytes_banjo()) || contains(token, &bytes_kazooie()) {
        return Some(bytes_game_and_watch());
    }
    if contains(token, &bytes_rosalina()) {
        return Some(bytes_rosalina_and_luma());
    }
    let has_aegis = contains(token, &bytes_aegis());
    if (contains(token, &bytes_pyra()) && contains(token, &bytes_mythra())) || has_aegis {
        return Some(bytes_aegis());
    }
    if seq_eq(token, &bytes_gw_tight()) || seq_eq(token, &bytes_gw_spaced()) {
        return Some(bytes_game_and_watch());
    }
    if seq_eq(token, &bytes_dk()) {
        return Some(bytes_donkey_kong());
    }
    None
}

/// Alias resolution of a token: the canonical name when a rule matches, the
/// token itself otherwise. Pure and total.
pub fn find_alias(token: Vec<u8>) -> (r: Vec<u8>)
    ensures
        r@ == resolve_spec(token@),
{
    match identify_character(&token) {
        Some(c) => c,
        None => token,
    }
}

/// Alias resolution never erases a token: a non-empty token resolves to a
/// non-empty canonical name.
pub proof fn lemma_resolve_nonempty(s: Seq<u8>)
    ensures
        s.len() > 0 ==> resolve_spec(s).len() > 0,
{
}

} // verus!
