//! Tokens for the services that results are sent to.

use crate::json::{entry_of, json_result, parse, set_entry, Json};
use crate::text::{joined, joined3, same};
use vstd::prelude::*;

verus! {

/// What tokens are filed under in the keychain.
pub const KEYCHAIN_SERVICE: &'static str = "one.nbp.skk";

/// The services that have been set up, by name.
#[derive(Debug)]
pub struct IntegrationsConfig {
    pub slack: Vec<(String, Json)>,
}

impl Default for IntegrationsConfig {
    fn default() -> (r: Self)
        ensures
            r.slack@.len() == 0,
    {
        IntegrationsConfig { slack: Vec::new() }
    }
}

/// The tokens that the file holds, or why it cannot be read. Without a file there are
/// none.
pub open spec fn tokens_in(data: Option<&str>) -> Result<Seq<(String, Json)>, Seq<char>> {
    match data {
        None => Ok(Seq::empty()),
        Some(text) => match json_result(text@) {
            Err(e) => Err("Failed to parse .dev-credentials.json: "@ + e),
            Ok(Json::Object(entries)) => Ok(entries@),
            Ok(_) => Err("dev-credentials.json must be a JSON object"@),
        },
    }
}

/// Reads the tokens that the file holds.
pub fn read_dev_credentials(data: Option<&str>) -> (r: Result<Vec<(String, Json)>, String>)
    ensures
        match r {
            Ok(entries) => tokens_in(data) == Ok::<Seq<(String, Json)>, Seq<char>>(entries@),
            Err(e) => tokens_in(data) == Err::<Seq<(String, Json)>, Seq<char>>(e@),
        },
{
    match data {
        None => {
            let none: Vec<(String, Json)> = Vec::new();
            assert(none@ =~= Seq::empty());
            Ok(none)
        },
        Some(text) => match parse(text) {
            Err(e) => Err(joined("Failed to parse .dev-credentials.json: ", e.as_str())),
            Ok(Json::Object(entries)) => Ok(entries),
            Ok(_) => Err("dev-credentials.json must be a JSON object".to_owned()),
        },
    }
}

/// Files a token under `account_key`. Gives what the file is to hold.
pub fn save_token(account_key: &str, token: &str, data: Option<&str>) -> (r: Result<
    Vec<(String, Json)>,
    String,
>)
    ensures
        match tokens_in(data) {
            Ok(before) => {
                &&& r is Ok
                &&& (match entry_of(r->Ok_0@, account_key@) {
                    Some(Json::Text(t)) => t@ == token@,
                    _ => false,
                })
                &&& forall|other: Seq<char>|
                    other != account_key@ ==> #[trigger] entry_of(r->Ok_0@, other) == entry_of(
                        before,
                        other,
                    )
            },
            Err(e) => r is Err && r->Err_0@ == e,
        },
{
    match read_dev_credentials(data) {
        Ok(mut entries) => {
            set_entry(&mut entries, account_key, Json::Text(token.to_owned()));
            Ok(entries)
        },
        Err(e) => Err(e),
    }
}

/// The token under `account_key`.
pub fn get_token(account_key: &str, data: Option<&str>) -> (r: Result<String, String>)
    ensures
        match tokens_in(data) {
            Ok(entries) => match entry_of(entries, account_key@) {
                Some(Json::Text(t)) => r is Ok && r->Ok_0@ == t@,
                _ => r is Err && r->Err_0@ == "Token '"@ + account_key@
                    + "' not found in .dev-credentials.json"@,
            },
            Err(e) => r is Err && r->Err_0@ == e,
        },
{
    match read_dev_credentials(data) {
        Ok(entries) => {
            match crate::json::lookup(&entries, account_key) {
                Some(Json::Text(t)) => {
                    return Ok(t.clone());
                },
                _ => {},
            }
            Err(joined3("Token '", account_key, "' not found in .dev-credentials.json"))
        },
        Err(e) => Err(e),
    }
}

/// Removes the token under `account_key`. Gives what the file is to hold.
pub fn delete_token(account_key: &str, data: Option<&str>) -> (r: Result<
    Vec<(String, Json)>,
    String,
>)
    ensures
        match tokens_in(data) {
            Ok(before) => {
                &&& r is Ok
                &&& entry_of(r->Ok_0@, account_key@) is None
                &&& forall|other: Seq<char>|
                    other != account_key@ ==> #[trigger] entry_of(r->Ok_0@, other) == entry_of(
                        before,
                        other,
                    )
            },
            Err(e) => r is Err && r->Err_0@ == e,
        },
{
    match read_dev_credentials(data) {
        Ok(mut entries) => {
            let ghost before = entries@;
            let mut out: Vec<(String, Json)> = Vec::new();
            assert(entry_of(out@, account_key@) is None);
            proof {
                assert forall|other: Seq<char>| #[trigger] entry_of(before, other) == found(
                    out@,
                    entries@,
                    other,
                ) by {}
            }
            while entries.len() > 0
                invariant
                    forall|i: int| 0 <= i < out@.len() ==> (#[trigger] out@[i]).0@ != account_key@,
                    forall|other: Seq<char>|
                        other != account_key@ ==> #[trigger] entry_of(before, other) == found(
                            out@,
                            entries@,
                            other,
                        ),
                decreases entries@.len(),
            {
                let ghost kept = out@;
                let ghost all = entries@;
                let e = entries.remove(0);
                assert(entries@ =~= all.skip(1));
                let ghost first = e;
                let ours = same(e.0.as_str(), account_key);
                if !ours {
                    out.push(e);
                }
                proof {
                    assert forall|other: Seq<char>|
                        other != account_key@ implies #[trigger] entry_of(before, other) == found(
                        out@,
                        entries@,
                        other,
                    ) by {
                        assert(entry_of(before, other) == found(kept, all, other));
                        if !ours {
                            lemma_entry_pushed(kept, first, other);
                        }
                    }
                }
            }
            proof {
                lemma_no_entry(out@, account_key@);
                assert forall|other: Seq<char>| other != account_key@ implies #[trigger] entry_of(
                    out@,
                    other,
                ) == entry_of(before, other) by {
                    assert(entry_of(before, other) == found(out@, entries@, other));
                }
            }
            Ok(out)
        },
        Err(e) => Err(e),
    }
}

/// What is under `key` in the first entries, else in the others.
spec fn found(first: Seq<(String, Json)>, others: Seq<(String, Json)>, key: Seq<char>) -> Option<
    Json,
> {
    match entry_of(first, key) {
        Some(v) => Some(v),
        None => entry_of(others, key),
    }
}

proof fn lemma_entry_pushed(entries: Seq<(String, Json)>, e: (String, Json), key: Seq<char>)
    ensures
        entry_of(entries.push(e), key) == match entry_of(entries, key) {
            Some(v) => Some(v),
            None => if e.0@ == key {
                Some(e.1)
            } else {
                None
            },
        },
    decreases entries.len(),
{
    let all = entries.push(e);
    if entries.len() == 0 {
        assert(all[0] == e);
        assert(all.skip(1) =~= Seq::empty());
        assert(entry_of(all.skip(1), key) is None);
    } else {
        assert(all[0] == entries[0]);
        assert(all.skip(1) =~= entries.skip(1).push(e));
        lemma_entry_pushed(entries.skip(1), e, key);
    }
}

proof fn lemma_no_entry(entries: Seq<(String, Json)>, key: Seq<char>)
    requires
        forall|i: int| 0 <= i < entries.len() ==> (#[trigger] entries[i]).0@ != key,
    ensures
        entry_of(entries, key) is None,
    decreases entries.len(),
{
    if entries.len() > 0 {
        let rest = entries.skip(1);
        assert(entries[0].0@ != key);
        assert forall|i: int| 0 <= i < rest.len() implies (#[trigger] rest[i]).0@ != key by {
            assert(rest[i] == entries[i + 1]);
        }
        lemma_no_entry(rest, key);
    }
}

} // verus!
