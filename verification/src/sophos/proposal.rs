//! Parses the strongSwan proposal strings that a Sophos `.scx` carries, such as
//! `aes256-sha2_256-modp2048`.
//!
//! The string is parsed rather than passed through, so that an unknown token is refused here
//! instead of being handed to charon.

use crate::model::{esp_text, ike_text, DhGroup, EncAlg, IkeVersion, IntegAlg, PrfAlg};
use crate::sophos::error::{ErrorView, ImportError};
use crate::text::{
    joined, lemma_split_of_joined, lemma_trimmed_stays, lowercase, same, split, split_on, to_lower,
    trim, trimmed, views,
};
use vstd::prelude::*;

verus! {

/// One parsed proposal. Without a group, an ESP proposal means no PFS.
#[derive(Debug, Clone, Copy, PartialEq, Eq, Structural)]
pub struct Proposal {
    pub enc: EncAlg,
    pub integ: IntegAlg,
    pub dh: Option<DhGroup>,
}

impl Proposal {
    /// The PRF to negotiate: the one that was named, or the hash that backs the integrity
    /// algorithm.
    pub fn prf(&self, explicit: Option<PrfAlg>) -> (r: PrfAlg)
        ensures
            r == (match explicit {
                Some(p) => p,
                None => self.integ.prf(),
            }),
    {
        match explicit {
            Some(p) => p,
            None => self.integ.matching_prf(),
        }
    }
}

/// The cipher that a token names.
pub open spec fn enc_of_token(t: Seq<char>) -> Option<EncAlg> {
    if t == "aes128"@ || t == "aes"@ {
        Some(EncAlg::Aes128)
    } else if t == "aes192"@ {
        Some(EncAlg::Aes192)
    } else if t == "aes256"@ {
        Some(EncAlg::Aes256)
    } else {
        None
    }
}

fn enc_token(t: &str) -> (r: Option<EncAlg>)
    ensures
        r == enc_of_token(t@),
{
    if same(t, "aes128") || same(t, "aes") {
        Some(EncAlg::Aes128)
    } else if same(t, "aes192") {
        Some(EncAlg::Aes192)
    } else if same(t, "aes256") {
        Some(EncAlg::Aes256)
    } else {
        None
    }
}

/// The hash that a token names, under both spellings that strongSwan accepts.
pub open spec fn integ_of_token(t: Seq<char>) -> Option<IntegAlg> {
    if t == "sha1"@ || t == "sha"@ || t == "hmac_sha1"@ {
        Some(IntegAlg::Sha1)
    } else if t == "sha256"@ || t == "sha2_256"@ || t == "hmac_sha2_256"@ {
        Some(IntegAlg::Sha256)
    } else if t == "sha384"@ || t == "sha2_384"@ || t == "hmac_sha2_384"@ {
        Some(IntegAlg::Sha384)
    } else if t == "sha512"@ || t == "sha2_512"@ || t == "hmac_sha2_512"@ {
        Some(IntegAlg::Sha512)
    } else {
        None
    }
}

fn integ_token(t: &str) -> (r: Option<IntegAlg>)
    ensures
        r == integ_of_token(t@),
{
    if same(t, "sha1") || same(t, "sha") || same(t, "hmac_sha1") {
        Some(IntegAlg::Sha1)
    } else if same(t, "sha256") || same(t, "sha2_256") || same(t, "hmac_sha2_256") {
        Some(IntegAlg::Sha256)
    } else if same(t, "sha384") || same(t, "sha2_384") || same(t, "hmac_sha2_384") {
        Some(IntegAlg::Sha384)
    } else if same(t, "sha512") || same(t, "sha2_512") || same(t, "hmac_sha2_512") {
        Some(IntegAlg::Sha512)
    } else {
        None
    }
}

/// The PRF that a token names.
pub open spec fn prf_of_token(t: Seq<char>) -> Option<PrfAlg> {
    if t == "prfsha1"@ {
        Some(PrfAlg::Sha1)
    } else if t == "prfsha256"@ {
        Some(PrfAlg::Sha256)
    } else if t == "prfsha384"@ {
        Some(PrfAlg::Sha384)
    } else if t == "prfsha512"@ {
        Some(PrfAlg::Sha512)
    } else {
        None
    }
}

fn prf_token(t: &str) -> (r: Option<PrfAlg>)
    ensures
        r == prf_of_token(t@),
{
    if same(t, "prfsha1") {
        Some(PrfAlg::Sha1)
    } else if same(t, "prfsha256") {
        Some(PrfAlg::Sha256)
    } else if same(t, "prfsha384") {
        Some(PrfAlg::Sha384)
    } else if same(t, "prfsha512") {
        Some(PrfAlg::Sha512)
    } else {
        None
    }
}

/// The group that a token names.
pub open spec fn dh_of_token(t: Seq<char>) -> Option<DhGroup> {
    if t == "modp1024"@ {
        Some(DhGroup::Modp1024)
    } else if t == "modp1536"@ {
        Some(DhGroup::Modp1536)
    } else if t == "modp2048"@ {
        Some(DhGroup::Modp2048)
    } else if t == "modp3072"@ {
        Some(DhGroup::Modp3072)
    } else if t == "modp4096"@ {
        Some(DhGroup::Modp4096)
    } else if t == "ecp256"@ {
        Some(DhGroup::Ecp256)
    } else if t == "ecp384"@ {
        Some(DhGroup::Ecp384)
    } else {
        None
    }
}

fn dh_token(t: &str) -> (r: Option<DhGroup>)
    ensures
        r == dh_of_token(t@),
{
    if same(t, "modp1024") {
        Some(DhGroup::Modp1024)
    } else if same(t, "modp1536") {
        Some(DhGroup::Modp1536)
    } else if same(t, "modp2048") {
        Some(DhGroup::Modp2048)
    } else if same(t, "modp3072") {
        Some(DhGroup::Modp3072)
    } else if same(t, "modp4096") {
        Some(DhGroup::Modp4096)
    } else if same(t, "ecp256") {
        Some(DhGroup::Ecp256)
    } else if same(t, "ecp384") {
        Some(DhGroup::Ecp384)
    } else {
        None
    }
}

/// What has been picked so far, the first of each kind.
#[derive(Debug, Clone, Copy, PartialEq, Eq, Structural)]
pub struct Picked {
    pub enc: Option<EncAlg>,
    pub integ: Option<IntegAlg>,
    pub prf: Option<PrfAlg>,
    pub dh: Option<DhGroup>,
}

/// The first of two, where there is one.
pub open spec fn keep<T>(first: Option<T>, next: Option<T>) -> Option<T> {
    match first {
        Some(_) => first,
        None => next,
    }
}

/// What a token adds; an unknown one is returned.
pub open spec fn pick(p: Picked, raw: Seq<char>) -> Result<Picked, Seq<char>> {
    let t = lowercase(trimmed(raw));
    if t.len() == 0 {
        Ok(p)
    } else if enc_of_token(t) is Some {
        Ok(Picked { enc: keep(p.enc, enc_of_token(t)), ..p })
    } else if prf_of_token(t) is Some {
        Ok(Picked { prf: keep(p.prf, prf_of_token(t)), ..p })
    } else if integ_of_token(t) is Some {
        Ok(Picked { integ: keep(p.integ, integ_of_token(t)), ..p })
    } else if dh_of_token(t) is Some {
        Ok(Picked { dh: keep(p.dh, dh_of_token(t)), ..p })
    } else {
        Err(t)
    }
}

/// What the first `n` tokens pick.
pub open spec fn pick_all(tokens: Seq<Seq<char>>, n: int) -> Result<Picked, Seq<char>>
    decreases n,
{
    if n <= 0 {
        Ok(Picked { enc: None, integ: None, prf: None, dh: None })
    } else {
        match pick_all(tokens, n - 1) {
            Ok(p) => pick(p, tokens[n - 1]),
            Err(e) => Err(e),
        }
    }
}

/// The proposal that a text stands for, with the PRF when it names one.
pub open spec fn proposal_of(s: Seq<char>, context: Seq<char>) -> Result<
    (Proposal, Option<PrfAlg>),
    ErrorView,
> {
    let tokens = split_on(s, '-');
    match pick_all(tokens, tokens.len() as int) {
        Err(token) => Err(ErrorView::UnknownAlgorithm { context, token }),
        Ok(p) => match (p.enc, p.integ) {
            (None, _) => Err(
                ErrorView::UnknownAlgorithm { context, token: "<no encryption algorithm>"@ },
            ),
            (_, None) => Err(
                ErrorView::UnknownAlgorithm { context, token: "<no integrity algorithm>"@ },
            ),
            (Some(enc), Some(integ)) => Ok((Proposal { enc, integ, dh: p.dh }, p.prf)),
        },
    }
}

/// An unknown token is the failure of the whole text.
proof fn lemma_unknown_stays(tokens: Seq<Seq<char>>, n: int, m: int)
    requires
        n <= m,
        pick_all(tokens, n) is Err,
    ensures
        pick_all(tokens, m) == pick_all(tokens, n),
    decreases m - n,
{
    if n < m {
        lemma_unknown_stays(tokens, n, m - 1);
    }
}

/// Parses one proposal string into the proposal and any explicit PRF.
///
/// A token that is not recognised is an error rather than something to skip: dropping a term
/// means negotiating something other than what the gateway's administrator configured.
pub fn parse(input: &str, context: &'static str) -> (r: Result<
    (Proposal, Option<PrfAlg>),
    ImportError,
>)
    ensures
        match r {
            Ok(x) => proposal_of(input@, context@) == Ok::<(Proposal, Option<PrfAlg>), ErrorView>(
                x,
            ),
            Err(e) => proposal_of(input@, context@) == Err::<(Proposal, Option<PrfAlg>), ErrorView>(
                e@,
            ),
        },
{
    let tokens = split(input, '-');
    let ghost all = split_on(input@, '-');
    let mut p = Picked { enc: None, integ: None, prf: None, dh: None };
    let mut i: usize = 0;
    while i < tokens.len()
        invariant
            i <= tokens@.len(),
            all == views(tokens@),
            all == split_on(input@, '-'),
            pick_all(all, i as int) == Ok::<Picked, Seq<char>>(p),
        decreases tokens@.len() - i,
    {
        assert(all[i as int] == tokens@[i as int]@);
        let token = to_lower(trim(tokens[i].as_str()).as_str());
        if !token.as_str().is_empty() {
            if let Some(v) = enc_token(token.as_str()) {
                if p.enc.is_none() {
                    p.enc = Some(v);
                }
            } else if let Some(v) = prf_token(token.as_str()) {
                if p.prf.is_none() {
                    p.prf = Some(v);
                }
            } else if let Some(v) = integ_token(token.as_str()) {
                if p.integ.is_none() {
                    p.integ = Some(v);
                }
            } else if let Some(v) = dh_token(token.as_str()) {
                if p.dh.is_none() {
                    p.dh = Some(v);
                }
            } else {
                proof {
                    lemma_unknown_stays(all, i + 1, all.len() as int);
                }
                return Err(ImportError::UnknownAlgorithm { context, token });
            }
        }
        i = i + 1;
    }
    match (p.enc, p.integ) {
        (None, _) => Err(
            ImportError::UnknownAlgorithm {
                context,
                token: "<no encryption algorithm>".to_owned(),
            },
        ),
        (_, None) => Err(
            ImportError::UnknownAlgorithm { context, token: "<no integrity algorithm>".to_owned() },
        ),
        (Some(enc), Some(integ)) => Ok((Proposal { enc, integ, dh: p.dh }, p.prf)),
    }
}

/// A token as it stands in a proposal: in lower case, without white space or a dash.
pub open spec fn is_bare(t: Seq<char>) -> bool {
    &&& t.len() > 0
    &&& lowercase(trimmed(t)) == t
    &&& forall|k: int| 0 <= k < t.len() ==> t[k] != '-'
}

proof fn lemma_bare(t: Seq<char>)
    requires
        t.len() > 0,
        forall|k: int| 0 <= k < t.len() ==> ('a' <= #[trigger] t[k] <= 'z' || '0' <= t[k] <= '9'),
    ensures
        is_bare(t),
{
    assert('a' <= t[0] <= 'z' || '0' <= t[0] <= '9');
    assert('a' <= t[t.len() - 1] <= 'z' || '0' <= t[t.len() - 1] <= '9');
    lemma_trimmed_stays(t);
    assert(lowercase(t) =~= t);
}

proof fn lemma_enc_token(a: EncAlg)
    ensures
        is_bare(a.token()),
        enc_of_token(a.token()) == Some(a),
{
    reveal_strlit("aes128");
    reveal_strlit("aes");
    reveal_strlit("aes192");
    reveal_strlit("aes256");
    assert("aes128"@.len() == 6 && "aes128"@[0] == 'a' && "aes128"@[1] == 'e' && "aes128"@[2] == 's' && "aes128"@[3] == '1' && "aes128"@[4] == '2' && "aes128"@[5] == '8');
    assert("aes"@.len() == 3 && "aes"@[0] == 'a' && "aes"@[1] == 'e' && "aes"@[2] == 's');
    assert("aes192"@.len() == 6 && "aes192"@[0] == 'a' && "aes192"@[1] == 'e' && "aes192"@[2] == 's' && "aes192"@[3] == '1' && "aes192"@[4] == '9' && "aes192"@[5] == '2');
    assert("aes256"@.len() == 6 && "aes256"@[0] == 'a' && "aes256"@[1] == 'e' && "aes256"@[2] == 's' && "aes256"@[3] == '2' && "aes256"@[4] == '5' && "aes256"@[5] == '6');
    lemma_bare(a.token());
}

proof fn lemma_prf_token(a: PrfAlg)
    ensures
        is_bare(a.token()),
        enc_of_token(a.token()) is None,
        prf_of_token(a.token()) == Some(a),
{
    reveal_strlit("aes128");
    reveal_strlit("aes");
    reveal_strlit("aes192");
    reveal_strlit("aes256");
    reveal_strlit("prfsha1");
    reveal_strlit("prfsha256");
    reveal_strlit("prfsha384");
    reveal_strlit("prfsha512");
    assert("aes128"@[0] == 'a');
    assert("aes"@[0] == 'a');
    assert("aes192"@[0] == 'a');
    assert("aes256"@[0] == 'a');
    assert("prfsha1"@.len() == 7 && "prfsha1"@[0] == 'p' && "prfsha1"@[1] == 'r' && "prfsha1"@[2] == 'f' && "prfsha1"@[3] == 's' && "prfsha1"@[4] == 'h' && "prfsha1"@[5] == 'a' && "prfsha1"@[6] == '1');
    assert("prfsha256"@.len() == 9 && "prfsha256"@[0] == 'p' && "prfsha256"@[1] == 'r' && "prfsha256"@[2] == 'f' && "prfsha256"@[3] == 's' && "prfsha256"@[4] == 'h' && "prfsha256"@[5] == 'a' && "prfsha256"@[6] == '2' && "prfsha256"@[7] == '5' && "prfsha256"@[8] == '6');
    assert("prfsha384"@.len() == 9 && "prfsha384"@[0] == 'p' && "prfsha384"@[1] == 'r' && "prfsha384"@[2] == 'f' && "prfsha384"@[3] == 's' && "prfsha384"@[4] == 'h' && "prfsha384"@[5] == 'a' && "prfsha384"@[6] == '3' && "prfsha384"@[7] == '8' && "prfsha384"@[8] == '4');
    assert("prfsha512"@.len() == 9 && "prfsha512"@[0] == 'p' && "prfsha512"@[1] == 'r' && "prfsha512"@[2] == 'f' && "prfsha512"@[3] == 's' && "prfsha512"@[4] == 'h' && "prfsha512"@[5] == 'a' && "prfsha512"@[6] == '5' && "prfsha512"@[7] == '1' && "prfsha512"@[8] == '2');
    lemma_bare(a.token());
}

proof fn lemma_integ_token(a: IntegAlg)
    ensures
        is_bare(a.token()),
        enc_of_token(a.token()) is None,
        prf_of_token(a.token()) is None,
        integ_of_token(a.token()) == Some(a),
{
    reveal_strlit("aes128");
    reveal_strlit("aes");
    reveal_strlit("aes192");
    reveal_strlit("aes256");
    reveal_strlit("prfsha1");
    reveal_strlit("prfsha256");
    reveal_strlit("prfsha384");
    reveal_strlit("prfsha512");
    reveal_strlit("sha1");
    reveal_strlit("sha");
    reveal_strlit("hmac_sha1");
    reveal_strlit("sha256");
    reveal_strlit("sha2_256");
    reveal_strlit("hmac_sha2_256");
    reveal_strlit("sha384");
    reveal_strlit("sha2_384");
    reveal_strlit("hmac_sha2_384");
    reveal_strlit("sha512");
    reveal_strlit("sha2_512");
    reveal_strlit("hmac_sha2_512");
    assert("aes128"@[0] == 'a');
    assert("aes"@[0] == 'a');
    assert("aes192"@[0] == 'a');
    assert("aes256"@[0] == 'a');
    assert("prfsha1"@[0] == 'p');
    assert("prfsha256"@[0] == 'p');
    assert("prfsha384"@[0] == 'p');
    assert("prfsha512"@[0] == 'p');
    assert("sha1"@.len() == 4 && "sha1"@[0] == 's' && "sha1"@[1] == 'h' && "sha1"@[2] == 'a' && "sha1"@[3] == '1');
    assert("sha"@.len() == 3 && "sha"@[0] == 's' && "sha"@[1] == 'h' && "sha"@[2] == 'a');
    assert("hmac_sha1"@.len() == 9 && "hmac_sha1"@[0] == 'h' && "hmac_sha1"@[1] == 'm' && "hmac_sha1"@[2] == 'a' && "hmac_sha1"@[3] == 'c' && "hmac_sha1"@[4] == '_' && "hmac_sha1"@[5] == 's' && "hmac_sha1"@[6] == 'h' && "hmac_sha1"@[7] == 'a' && "hmac_sha1"@[8] == '1');
    assert("sha256"@.len() == 6 && "sha256"@[0] == 's' && "sha256"@[1] == 'h' && "sha256"@[2] == 'a' && "sha256"@[3] == '2' && "sha256"@[4] == '5' && "sha256"@[5] == '6');
    assert("sha2_256"@.len() == 8 && "sha2_256"@[0] == 's' && "sha2_256"@[1] == 'h' && "sha2_256"@[2] == 'a' && "sha2_256"@[3] == '2' && "sha2_256"@[4] == '_' && "sha2_256"@[5] == '2' && "sha2_256"@[6] == '5' && "sha2_256"@[7] == '6');
    assert("hmac_sha2_256"@.len() == 13 && "hmac_sha2_256"@[0] == 'h' && "hmac_sha2_256"@[1] == 'm' && "hmac_sha2_256"@[2] == 'a' && "hmac_sha2_256"@[3] == 'c' && "hmac_sha2_256"@[4] == '_' && "hmac_sha2_256"@[5] == 's' && "hmac_sha2_256"@[6] == 'h' && "hmac_sha2_256"@[7] == 'a' && "hmac_sha2_256"@[8] == '2' && "hmac_sha2_256"@[9] == '_' && "hmac_sha2_256"@[10] == '2' && "hmac_sha2_256"@[11] == '5' && "hmac_sha2_256"@[12] == '6');
    assert("sha384"@.len() == 6 && "sha384"@[0] == 's' && "sha384"@[1] == 'h' && "sha384"@[2] == 'a' && "sha384"@[3] == '3' && "sha384"@[4] == '8' && "sha384"@[5] == '4');
    assert("sha2_384"@.len() == 8 && "sha2_384"@[0] == 's' && "sha2_384"@[1] == 'h' && "sha2_384"@[2] == 'a' && "sha2_384"@[3] == '2' && "sha2_384"@[4] == '_' && "sha2_384"@[5] == '3' && "sha2_384"@[6] == '8' && "sha2_384"@[7] == '4');
    assert("hmac_sha2_384"@.len() == 13 && "hmac_sha2_384"@[0] == 'h' && "hmac_sha2_384"@[1] == 'm' && "hmac_sha2_384"@[2] == 'a' && "hmac_sha2_384"@[3] == 'c' && "hmac_sha2_384"@[4] == '_' && "hmac_sha2_384"@[5] == 's' && "hmac_sha2_384"@[6] == 'h' && "hmac_sha2_384"@[7] == 'a' && "hmac_sha2_384"@[8] == '2' && "hmac_sha2_384"@[9] == '_' && "hmac_sha2_384"@[10] == '3' && "hmac_sha2_384"@[11] == '8' && "hmac_sha2_384"@[12] == '4');
    assert("sha512"@.len() == 6 && "sha512"@[0] == 's' && "sha512"@[1] == 'h' && "sha512"@[2] == 'a' && "sha512"@[3] == '5' && "sha512"@[4] == '1' && "sha512"@[5] == '2');
    assert("sha2_512"@.len() == 8 && "sha2_512"@[0] == 's' && "sha2_512"@[1] == 'h' && "sha2_512"@[2] == 'a' && "sha2_512"@[3] == '2' && "sha2_512"@[4] == '_' && "sha2_512"@[5] == '5' && "sha2_512"@[6] == '1' && "sha2_512"@[7] == '2');
    assert("hmac_sha2_512"@.len() == 13 && "hmac_sha2_512"@[0] == 'h' && "hmac_sha2_512"@[1] == 'm' && "hmac_sha2_512"@[2] == 'a' && "hmac_sha2_512"@[3] == 'c' && "hmac_sha2_512"@[4] == '_' && "hmac_sha2_512"@[5] == 's' && "hmac_sha2_512"@[6] == 'h' && "hmac_sha2_512"@[7] == 'a' && "hmac_sha2_512"@[8] == '2' && "hmac_sha2_512"@[9] == '_' && "hmac_sha2_512"@[10] == '5' && "hmac_sha2_512"@[11] == '1' && "hmac_sha2_512"@[12] == '2');
    lemma_bare(a.token());
}

proof fn lemma_dh_token(g: DhGroup)
    ensures
        is_bare(g.token()),
        enc_of_token(g.token()) is None,
        prf_of_token(g.token()) is None,
        integ_of_token(g.token()) is None,
        dh_of_token(g.token()) == Some(g),
{
    reveal_strlit("aes128");
    reveal_strlit("aes");
    reveal_strlit("aes192");
    reveal_strlit("aes256");
    reveal_strlit("prfsha1");
    reveal_strlit("prfsha256");
    reveal_strlit("prfsha384");
    reveal_strlit("prfsha512");
    reveal_strlit("sha1");
    reveal_strlit("sha");
    reveal_strlit("hmac_sha1");
    reveal_strlit("sha256");
    reveal_strlit("sha2_256");
    reveal_strlit("hmac_sha2_256");
    reveal_strlit("sha384");
    reveal_strlit("sha2_384");
    reveal_strlit("hmac_sha2_384");
    reveal_strlit("sha512");
    reveal_strlit("sha2_512");
    reveal_strlit("hmac_sha2_512");
    reveal_strlit("modp1024");
    reveal_strlit("modp1536");
    reveal_strlit("modp2048");
    reveal_strlit("modp3072");
    reveal_strlit("modp4096");
    reveal_strlit("ecp256");
    reveal_strlit("ecp384");
    assert("aes128"@[0] == 'a');
    assert("aes"@[0] == 'a');
    assert("aes192"@[0] == 'a');
    assert("aes256"@[0] == 'a');
    assert("prfsha1"@[0] == 'p');
    assert("prfsha256"@[0] == 'p');
    assert("prfsha384"@[0] == 'p');
    assert("prfsha512"@[0] == 'p');
    assert("sha1"@[0] == 's');
    assert("sha"@[0] == 's');
    assert("hmac_sha1"@[0] == 'h');
    assert("sha256"@[0] == 's');
    assert("sha2_256"@[0] == 's');
    assert("hmac_sha2_256"@[0] == 'h');
    assert("sha384"@[0] == 's');
    assert("sha2_384"@[0] == 's');
    assert("hmac_sha2_384"@[0] == 'h');
    assert("sha512"@[0] == 's');
    assert("sha2_512"@[0] == 's');
    assert("hmac_sha2_512"@[0] == 'h');
    assert("modp1024"@.len() == 8 && "modp1024"@[0] == 'm' && "modp1024"@[1] == 'o' && "modp1024"@[2] == 'd' && "modp1024"@[3] == 'p' && "modp1024"@[4] == '1' && "modp1024"@[5] == '0' && "modp1024"@[6] == '2' && "modp1024"@[7] == '4');
    assert("modp1536"@.len() == 8 && "modp1536"@[0] == 'm' && "modp1536"@[1] == 'o' && "modp1536"@[2] == 'd' && "modp1536"@[3] == 'p' && "modp1536"@[4] == '1' && "modp1536"@[5] == '5' && "modp1536"@[6] == '3' && "modp1536"@[7] == '6');
    assert("modp2048"@.len() == 8 && "modp2048"@[0] == 'm' && "modp2048"@[1] == 'o' && "modp2048"@[2] == 'd' && "modp2048"@[3] == 'p' && "modp2048"@[4] == '2' && "modp2048"@[5] == '0' && "modp2048"@[6] == '4' && "modp2048"@[7] == '8');
    assert("modp3072"@.len() == 8 && "modp3072"@[0] == 'm' && "modp3072"@[1] == 'o' && "modp3072"@[2] == 'd' && "modp3072"@[3] == 'p' && "modp3072"@[4] == '3' && "modp3072"@[5] == '0' && "modp3072"@[6] == '7' && "modp3072"@[7] == '2');
    assert("modp4096"@.len() == 8 && "modp4096"@[0] == 'm' && "modp4096"@[1] == 'o' && "modp4096"@[2] == 'd' && "modp4096"@[3] == 'p' && "modp4096"@[4] == '4' && "modp4096"@[5] == '0' && "modp4096"@[6] == '9' && "modp4096"@[7] == '6');
    assert("ecp256"@.len() == 6 && "ecp256"@[0] == 'e' && "ecp256"@[1] == 'c' && "ecp256"@[2] == 'p' && "ecp256"@[3] == '2' && "ecp256"@[4] == '5' && "ecp256"@[5] == '6');
    assert("ecp384"@.len() == 6 && "ecp384"@[0] == 'e' && "ecp384"@[1] == 'c' && "ecp384"@[2] == 'p' && "ecp384"@[3] == '3' && "ecp384"@[4] == '8' && "ecp384"@[5] == '4');
    lemma_bare(g.token());
}

/// A proposal that the connection model writes reads back as the same algorithms.
pub proof fn law_proposals_read_back(
    enc: EncAlg,
    integ: IntegAlg,
    prf: PrfAlg,
    dh: DhGroup,
    pfs: Option<DhGroup>,
    context: Seq<char>,
)
    ensures
        proposal_of(ike_text(IkeVersion::V1, enc, integ, prf, dh), context) == Ok::<
            (Proposal, Option<PrfAlg>),
            ErrorView,
        >((Proposal { enc, integ, dh: Some(dh) }, None)),
        proposal_of(ike_text(IkeVersion::V2, enc, integ, prf, dh), context) == Ok::<
            (Proposal, Option<PrfAlg>),
            ErrorView,
        >((Proposal { enc, integ, dh: Some(dh) }, Some(prf))),
        proposal_of(esp_text(enc, integ, pfs), context) == Ok::<
            (Proposal, Option<PrfAlg>),
            ErrorView,
        >((Proposal { enc, integ, dh: pfs }, None)),
{
    lemma_enc_token(enc);
    lemma_integ_token(integ);
    lemma_prf_token(prf);
    lemma_dh_token(dh);
    reveal_strlit("-");
    assert("-"@ =~= seq!['-']);
    let (e, i, p, d) = (enc.token(), integ.token(), prf.token(), dh.token());
    reveal_with_fuel(joined, 5);
    reveal_with_fuel(pick_all, 5);
    let v1 = seq![e, i, d];
    lemma_split_of_joined(v1, '-', 3);
    assert(v1.take(3) =~= v1);
    assert(joined(v1, "-"@, 3) =~= ike_text(IkeVersion::V1, enc, integ, prf, dh));
    let v2 = seq![e, i, p, d];
    lemma_split_of_joined(v2, '-', 4);
    assert(v2.take(4) =~= v2);
    assert(joined(v2, "-"@, 4) =~= ike_text(IkeVersion::V2, enc, integ, prf, dh));
    match pfs {
        Some(g) => {
            lemma_dh_token(g);
            let w = seq![e, i, g.token()];
            lemma_split_of_joined(w, '-', 3);
            assert(w.take(3) =~= w);
            assert(joined(w, "-"@, 3) =~= esp_text(enc, integ, pfs));
        },
        None => {
            let w = seq![e, i];
            lemma_split_of_joined(w, '-', 2);
            assert(w.take(2) =~= w);
            assert(joined(w, "-"@, 2) =~= esp_text(enc, integ, pfs));
        },
    }
}

/// Whether a token names nothing that is known.
pub open spec fn is_unknown(token: Seq<char>) -> bool {
    let t = lowercase(trimmed(token));
    &&& t.len() > 0
    &&& enc_of_token(t) is None
    &&& prf_of_token(t) is None
    &&& integ_of_token(t) is None
    &&& dh_of_token(t) is None
}

proof fn lemma_refusal_names_a_token(tokens: Seq<Seq<char>>, n: int)
    requires
        n <= tokens.len(),
        pick_all(tokens, n) is Err,
    ensures
        exists|j: int|
            0 <= j < n && is_unknown(#[trigger] tokens[j]) && pick_all(tokens, n)->Err_0
                == lowercase(trimmed(tokens[j])),
    decreases n,
{
    if pick_all(tokens, n - 1) is Err {
        lemma_refusal_names_a_token(tokens, n - 1);
    } else {
        assert(is_unknown(tokens[n - 1]));
    }
}

/// No token is skipped: a text with one that is not known is refused, and the error names one that
/// is not known.
pub proof fn law_unknown_token_is_refused(s: Seq<char>, context: Seq<char>, i: int)
    requires
        0 <= i < split_on(s, '-').len(),
        is_unknown(split_on(s, '-')[i]),
    ensures
        exists|j: int|
            0 <= j <= i && is_unknown(#[trigger] split_on(s, '-')[j]) && proposal_of(s, context)
                == Err::<(Proposal, Option<PrfAlg>), ErrorView>(
                ErrorView::UnknownAlgorithm {
                    context,
                    token: lowercase(trimmed(split_on(s, '-')[j])),
                },
            ),
{
    let tokens = split_on(s, '-');
    assert(pick_all(tokens, i + 1) is Err);
    lemma_unknown_stays(tokens, i + 1, tokens.len() as int);
    lemma_refusal_names_a_token(tokens, i + 1);
}

/// Whether a token spells a cipher: its own name, in any case, or `aes` for the shortest key.
pub open spec fn spells_enc(token: Seq<char>, a: EncAlg) -> bool {
    let t = lowercase(trimmed(token));
    t == a.token() || a == EncAlg::Aes128 && t == "aes"@
}

/// Whether a token spells a hash: by its own name, or by strongSwan's longer ones.
pub open spec fn spells_integ(token: Seq<char>, a: IntegAlg) -> bool {
    let t = lowercase(trimmed(token));
    ||| t == a.token()
    ||| a == IntegAlg::Sha1 && (t == "sha"@ || t == "hmac_sha1"@)
    ||| a == IntegAlg::Sha256 && (t == "sha2_256"@ || t == "hmac_sha2_256"@)
    ||| a == IntegAlg::Sha384 && (t == "sha2_384"@ || t == "hmac_sha2_384"@)
    ||| a == IntegAlg::Sha512 && (t == "sha2_512"@ || t == "hmac_sha2_512"@)
}

/// Whether a token spells a PRF.
pub open spec fn spells_prf(token: Seq<char>, a: PrfAlg) -> bool {
    lowercase(trimmed(token)) == a.token()
}

/// Whether a token spells a group.
pub open spec fn spells_dh(token: Seq<char>, g: DhGroup) -> bool {
    lowercase(trimmed(token)) == g.token()
}

/// Whether a choice among `n` things is the first of them that `names` one: `names(k, a)` says that
/// thing number `k` names `a`.
pub open spec fn is_first_named<A>(names: spec_fn(int, A) -> bool, n: int, choice: Option<A>) -> bool {
    match choice {
        Some(a) => exists|k: int|
            0 <= k < n && #[trigger] names(k, a) && forall|j: int, b: A|
                0 <= j < k ==> !#[trigger] names(j, b),
        None => forall|j: int, b: A| 0 <= j < n ==> !#[trigger] names(j, b),
    }
}

/// One more thing changes the first choice only when there was none before.
proof fn lemma_first_named<A>(
    names: spec_fn(int, A) -> bool,
    n: int,
    before: Option<A>,
    now: Option<A>,
    last: Option<A>,
)
    requires
        n >= 0,
        is_first_named(names, n, before),
        now == keep(before, last),
        last matches Some(a) ==> names(n, a),
        last is None ==> forall|b: A| !#[trigger] names(n, b),
    ensures
        is_first_named(names, n + 1, now),
{
    match before {
        Some(a) => {
            let k = choose|k: int|
                0 <= k < n && #[trigger] names(k, a) && forall|j: int, b: A|
                    0 <= j < k ==> !#[trigger] names(j, b);
            assert(names(k, a));
        },
        None => {
            if let Some(a) = last {
                assert(names(n, a));
            }
        },
    }
}

/// A token of one kind is of no other kind, and names what it spells.
proof fn lemma_spelled_enc(token: Seq<char>, a: EncAlg)
    requires
        spells_enc(token, a),
    ensures
        enc_of_token(lowercase(trimmed(token))) == Some(a),
        lowercase(trimmed(token)).len() > 0,
{
    reveal_strlit("aes128");
    reveal_strlit("aes");
    reveal_strlit("aes192");
    reveal_strlit("aes256");
    assert("aes128"@.len() == 6 && "aes128"@[0] == 'a' && "aes128"@[1] == 'e' && "aes128"@[2] == 's' && "aes128"@[3] == '1' && "aes128"@[4] == '2' && "aes128"@[5] == '8');
    assert("aes"@.len() == 3 && "aes"@[0] == 'a' && "aes"@[1] == 'e' && "aes"@[2] == 's');
    assert("aes192"@.len() == 6 && "aes192"@[0] == 'a' && "aes192"@[1] == 'e' && "aes192"@[2] == 's' && "aes192"@[3] == '1' && "aes192"@[4] == '9' && "aes192"@[5] == '2');
    assert("aes256"@.len() == 6 && "aes256"@[0] == 'a' && "aes256"@[1] == 'e' && "aes256"@[2] == 's' && "aes256"@[3] == '2' && "aes256"@[4] == '5' && "aes256"@[5] == '6');
}

proof fn lemma_spelled_prf(token: Seq<char>, a: PrfAlg)
    requires
        spells_prf(token, a),
    ensures
        enc_of_token(lowercase(trimmed(token))) is None,
        prf_of_token(lowercase(trimmed(token))) == Some(a),
        lowercase(trimmed(token)).len() > 0,
{
    lemma_prf_token(a);
}

proof fn lemma_spelled_dh(token: Seq<char>, a: DhGroup)
    requires
        spells_dh(token, a),
    ensures
        enc_of_token(lowercase(trimmed(token))) is None,
        prf_of_token(lowercase(trimmed(token))) is None,
        integ_of_token(lowercase(trimmed(token))) is None,
        dh_of_token(lowercase(trimmed(token))) == Some(a),
        lowercase(trimmed(token)).len() > 0,
{
    lemma_dh_token(a);
}

proof fn lemma_spelled_integ(token: Seq<char>, a: IntegAlg)
    requires
        spells_integ(token, a),
    ensures
        enc_of_token(lowercase(trimmed(token))) is None,
        prf_of_token(lowercase(trimmed(token))) is None,
        integ_of_token(lowercase(trimmed(token))) == Some(a),
        lowercase(trimmed(token)).len() > 0,
{
    reveal_strlit("aes128");
    reveal_strlit("aes");
    reveal_strlit("aes192");
    reveal_strlit("aes256");
    reveal_strlit("prfsha1");
    reveal_strlit("prfsha256");
    reveal_strlit("prfsha384");
    reveal_strlit("prfsha512");
    assert("aes128"@[0] == 'a');
    assert("aes"@[0] == 'a');
    assert("aes192"@[0] == 'a');
    assert("aes256"@[0] == 'a');
    assert("prfsha1"@[0] == 'p');
    assert("prfsha256"@[0] == 'p');
    assert("prfsha384"@[0] == 'p');
    assert("prfsha512"@[0] == 'p');
    reveal_strlit("sha1");
    reveal_strlit("sha");
    reveal_strlit("hmac_sha1");
    reveal_strlit("sha256");
    reveal_strlit("sha2_256");
    reveal_strlit("hmac_sha2_256");
    reveal_strlit("sha384");
    reveal_strlit("sha2_384");
    reveal_strlit("hmac_sha2_384");
    reveal_strlit("sha512");
    reveal_strlit("sha2_512");
    reveal_strlit("hmac_sha2_512");
    assert("sha1"@.len() == 4 && "sha1"@[0] == 's' && "sha1"@[1] == 'h' && "sha1"@[2] == 'a' && "sha1"@[3] == '1');
    assert("sha"@.len() == 3 && "sha"@[0] == 's' && "sha"@[1] == 'h' && "sha"@[2] == 'a');
    assert("hmac_sha1"@.len() == 9 && "hmac_sha1"@[0] == 'h' && "hmac_sha1"@[1] == 'm' && "hmac_sha1"@[2] == 'a' && "hmac_sha1"@[3] == 'c' && "hmac_sha1"@[4] == '_' && "hmac_sha1"@[5] == 's' && "hmac_sha1"@[6] == 'h' && "hmac_sha1"@[7] == 'a' && "hmac_sha1"@[8] == '1');
    assert("sha256"@.len() == 6 && "sha256"@[0] == 's' && "sha256"@[1] == 'h' && "sha256"@[2] == 'a' && "sha256"@[3] == '2' && "sha256"@[4] == '5' && "sha256"@[5] == '6');
    assert("sha2_256"@.len() == 8 && "sha2_256"@[0] == 's' && "sha2_256"@[1] == 'h' && "sha2_256"@[2] == 'a' && "sha2_256"@[3] == '2' && "sha2_256"@[4] == '_' && "sha2_256"@[5] == '2' && "sha2_256"@[6] == '5' && "sha2_256"@[7] == '6');
    assert("hmac_sha2_256"@.len() == 13 && "hmac_sha2_256"@[0] == 'h' && "hmac_sha2_256"@[1] == 'm' && "hmac_sha2_256"@[2] == 'a' && "hmac_sha2_256"@[3] == 'c' && "hmac_sha2_256"@[4] == '_' && "hmac_sha2_256"@[5] == 's' && "hmac_sha2_256"@[6] == 'h' && "hmac_sha2_256"@[7] == 'a' && "hmac_sha2_256"@[8] == '2' && "hmac_sha2_256"@[9] == '_' && "hmac_sha2_256"@[10] == '2' && "hmac_sha2_256"@[11] == '5' && "hmac_sha2_256"@[12] == '6');
    assert("sha384"@.len() == 6 && "sha384"@[0] == 's' && "sha384"@[1] == 'h' && "sha384"@[2] == 'a' && "sha384"@[3] == '3' && "sha384"@[4] == '8' && "sha384"@[5] == '4');
    assert("sha2_384"@.len() == 8 && "sha2_384"@[0] == 's' && "sha2_384"@[1] == 'h' && "sha2_384"@[2] == 'a' && "sha2_384"@[3] == '2' && "sha2_384"@[4] == '_' && "sha2_384"@[5] == '3' && "sha2_384"@[6] == '8' && "sha2_384"@[7] == '4');
    assert("hmac_sha2_384"@.len() == 13 && "hmac_sha2_384"@[0] == 'h' && "hmac_sha2_384"@[1] == 'm' && "hmac_sha2_384"@[2] == 'a' && "hmac_sha2_384"@[3] == 'c' && "hmac_sha2_384"@[4] == '_' && "hmac_sha2_384"@[5] == 's' && "hmac_sha2_384"@[6] == 'h' && "hmac_sha2_384"@[7] == 'a' && "hmac_sha2_384"@[8] == '2' && "hmac_sha2_384"@[9] == '_' && "hmac_sha2_384"@[10] == '3' && "hmac_sha2_384"@[11] == '8' && "hmac_sha2_384"@[12] == '4');
    assert("sha512"@.len() == 6 && "sha512"@[0] == 's' && "sha512"@[1] == 'h' && "sha512"@[2] == 'a' && "sha512"@[3] == '5' && "sha512"@[4] == '1' && "sha512"@[5] == '2');
    assert("sha2_512"@.len() == 8 && "sha2_512"@[0] == 's' && "sha2_512"@[1] == 'h' && "sha2_512"@[2] == 'a' && "sha2_512"@[3] == '2' && "sha2_512"@[4] == '_' && "sha2_512"@[5] == '5' && "sha2_512"@[6] == '1' && "sha2_512"@[7] == '2');
    assert("hmac_sha2_512"@.len() == 13 && "hmac_sha2_512"@[0] == 'h' && "hmac_sha2_512"@[1] == 'm' && "hmac_sha2_512"@[2] == 'a' && "hmac_sha2_512"@[3] == 'c' && "hmac_sha2_512"@[4] == '_' && "hmac_sha2_512"@[5] == 's' && "hmac_sha2_512"@[6] == 'h' && "hmac_sha2_512"@[7] == 'a' && "hmac_sha2_512"@[8] == '2' && "hmac_sha2_512"@[9] == '_' && "hmac_sha2_512"@[10] == '5' && "hmac_sha2_512"@[11] == '1' && "hmac_sha2_512"@[12] == '2');
}

/// What the first `n` tokens pick is the first of each kind that they spell.
proof fn lemma_picked(tokens: Seq<Seq<char>>, n: int)
    requires
        0 <= n <= tokens.len(),
    ensures
        pick_all(tokens, n) matches Ok(p) ==> {
            &&& is_first_named(|k: int, a: EncAlg| spells_enc(tokens[k], a), n, p.enc)
            &&& is_first_named(|k: int, a: IntegAlg| spells_integ(tokens[k], a), n, p.integ)
            &&& is_first_named(|k: int, a: PrfAlg| spells_prf(tokens[k], a), n, p.prf)
            &&& is_first_named(|k: int, a: DhGroup| spells_dh(tokens[k], a), n, p.dh)
        },
    decreases n,
{
    if n > 0 && pick_all(tokens, n) is Ok {
        lemma_picked(tokens, n - 1);
        let p = pick_all(tokens, n - 1)->Ok_0;
        let q = pick_all(tokens, n)->Ok_0;
        let token = tokens[n - 1];
        let t = lowercase(trimmed(token));
        let enc = if t.len() > 0 {
            enc_of_token(t)
        } else {
            None
        };
        let prf = if t.len() > 0 && enc is None {
            prf_of_token(t)
        } else {
            None
        };
        let integ = if t.len() > 0 && enc is None && prf is None {
            integ_of_token(t)
        } else {
            None
        };
        let dh = if t.len() > 0 && enc is None && prf is None && integ is None {
            dh_of_token(t)
        } else {
            None
        };
        assert forall|a: EncAlg| #[trigger] spells_enc(token, a) implies enc == Some(a) by {
            lemma_spelled_enc(token, a);
        }
        assert forall|a: PrfAlg| #[trigger] spells_prf(token, a) implies prf == Some(a) by {
            lemma_spelled_prf(token, a);
        }
        assert forall|a: IntegAlg| #[trigger] spells_integ(token, a) implies integ == Some(a) by {
            lemma_spelled_integ(token, a);
        }
        assert forall|a: DhGroup| #[trigger] spells_dh(token, a) implies dh == Some(a) by {
            lemma_spelled_dh(token, a);
        }
        lemma_first_named(|k: int, a: EncAlg| spells_enc(tokens[k], a), n - 1, p.enc, q.enc, enc);
        lemma_first_named(
            |k: int, a: IntegAlg| spells_integ(tokens[k], a),
            n - 1,
            p.integ,
            q.integ,
            integ,
        );
        lemma_first_named(|k: int, a: PrfAlg| spells_prf(tokens[k], a), n - 1, p.prf, q.prf, prf);
        lemma_first_named(|k: int, a: DhGroup| spells_dh(tokens[k], a), n - 1, p.dh, q.dh, dh);
    }
}

/// Whether a proposal is what a text between dashes spells: of each kind of algorithm the first that
/// is spelled, and none of a kind that is not.
pub open spec fn is_spelled(
    s: Seq<char>,
    enc: EncAlg,
    integ: IntegAlg,
    prf: Option<PrfAlg>,
    dh: Option<DhGroup>,
) -> bool {
    let tokens = split_on(s, '-');
    let n = tokens.len() as int;
    &&& is_first_named(|k: int, a: EncAlg| spells_enc(tokens[k], a), n, Some(enc))
    &&& is_first_named(|k: int, a: IntegAlg| spells_integ(tokens[k], a), n, Some(integ))
    &&& is_first_named(|k: int, a: PrfAlg| spells_prf(tokens[k], a), n, prf)
    &&& is_first_named(|k: int, a: DhGroup| spells_dh(tokens[k], a), n, dh)
}

/// A proposal that is accepted is the one that its text spells: the first cipher, hash, PRF and group
/// in it. It has no group exactly when none is spelled.
pub proof fn law_proposal_is_what_is_spelled(s: Seq<char>, context: Seq<char>)
    ensures
        proposal_of(s, context) matches Ok(x) ==> is_spelled(s, x.0.enc, x.0.integ, x.1, x.0.dh),
{
    lemma_picked(split_on(s, '-'), split_on(s, '-').len() as int);
}

} // verus!
