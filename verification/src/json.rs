//! The store as JSON text: an object of categories, each an object of items,
//! each an object of entries. String literals are written by `serde_json`; the
//! objects around them are framed here.

use vstd::prelude::*;
use vstd::string::StringExecFns;
use crate::assoc::listing;
use crate::category::Category;
use crate::error::WalletError;
use crate::item::Item;
use crate::model::{Categories, Entries, Items};
use crate::wallet::Wallet;

verus! {

/// The JSON string literal that `serde_json` writes for the string `s`, quotes
/// included, if it writes one.
pub uninterp spec fn json_string(s: Seq<char>) -> Option<Seq<char>>;

/// Writes `s` as a JSON string literal.
///
/// Calls `serde_json::to_string` on the string. Not proved: that what comes
/// back, a text or a failure, depends on the characters of `s` alone, which is
/// all that the name `json_string` stands for.
#[verifier::external_body]
fn quote(s: &str) -> (r: Option<String>)
    ensures
        match r {
            Some(t) => json_string(s@) == Some(t@),
            None => json_string(s@) is None,
        },
{
    serde_json::to_string(s).ok()
}

/// Each pair of strings as a pair of character sequences.
pub open spec fn texts(members: Seq<(String, String)>) -> Seq<(Seq<char>, Seq<char>)> {
    members.map_values(|m: (String, String)| (m.0@, m.1@))
}

/// One member of an object: the name, a colon, the value.
pub open spec fn member_text(m: (Seq<char>, Seq<char>)) -> Seq<char> {
    m.0 + seq![':'] + m.1
}

/// The members of an object, with a comma between each two.
pub open spec fn members_text(ms: Seq<(Seq<char>, Seq<char>)>) -> Seq<char>
    decreases ms.len(),
{
    if ms.len() == 0 {
        Seq::empty()
    } else if ms.len() == 1 {
        member_text(ms[0])
    } else {
        members_text(ms.drop_last()) + seq![','] + member_text(ms.last())
    }
}

/// An object: its members between braces.
pub open spec fn object_text(ms: Seq<(Seq<char>, Seq<char>)>) -> Seq<char> {
    seq!['{'] + members_text(ms) + seq!['}']
}

/// Frames an object around members that are JSON texts already: each name is a
/// string literal, each value any JSON text.
pub fn frame_object(members: &Vec<(String, String)>) -> (r: String)
    ensures
        r@ == object_text(texts(members@)),
{
    let ghost ms = texts(members@);
    let mut out = String::new();
    proof {
        reveal_strlit("{");
        reveal_strlit("}");
        reveal_strlit(",");
        reveal_strlit(":");
    }
    out.append("{");
    let mut i: usize = 0;
    proof {
        assert(out@ =~= seq!['{'] + members_text(ms.take(0)));
    }
    while i < members.len()
        invariant
            0 <= i <= members@.len(),
            ms == texts(members@),
            out@ == seq!['{'] + members_text(ms.take(i as int)),
            "{"@ == seq!['{'],
            "}"@ == seq!['}'],
            ","@ == seq![','],
            ":"@ == seq![':'],
        decreases members@.len() - i,
    {
        let ghost before = out@;
        if i > 0 {
            out.append(",");
        }
        out.append(members[i].0.as_str());
        out.append(":");
        out.append(members[i].1.as_str());
        proof {
            let t = ms.take(i as int + 1);
            assert(t.drop_last() =~= ms.take(i as int));
            assert(t.last() == ms[i as int]);
            assert(ms[i as int] == (members@[i as int].0@, members@[i as int].1@));
            if i == 0 {
                assert(t[0] == ms[0]);
                assert(members_text(ms.take(0)) =~= Seq::<char>::empty());
                assert(out@ =~= seq!['{'] + members_text(t));
            } else {
                assert(out@ =~= seq!['{'] + members_text(t));
            }
        }
        i = i + 1;
    }
    proof {
        assert(ms.take(i as int) =~= ms);
    }
    out.append("}");
    out
}

/// The entries of an item as members of an object: every key and every value
/// as a string literal. Nothing if one of them cannot be written.
pub open spec fn entry_members(es: Seq<(Seq<char>, Seq<char>)>) -> Option<
    Seq<(Seq<char>, Seq<char>)>,
> {
    if forall|i: int|
        0 <= i < es.len() ==> json_string(#[trigger] es[i].0) is Some && json_string(es[i].1) is Some {
        Some(
            es.map_values(
                |e: (Seq<char>, Seq<char>)| (json_string(e.0).unwrap(), json_string(e.1).unwrap()),
            ),
        )
    } else {
        None
    }
}

/// The JSON text of an item: an object of its entries in ascending key order.
pub open spec fn entries_text(entries: Entries) -> Option<Seq<char>> {
    match entry_members(listing(entries)) {
        Some(ms) => Some(object_text(ms)),
        None => None,
    }
}

/// The items of a category as members of an object.
pub open spec fn item_members(its: Seq<(Seq<char>, Entries)>) -> Option<
    Seq<(Seq<char>, Seq<char>)>,
> {
    if forall|i: int|
        0 <= i < its.len() ==> json_string(#[trigger] its[i].0) is Some && entries_text(its[i].1) is Some {
        Some(
            its.map_values(
                |it: (Seq<char>, Entries)| (json_string(it.0).unwrap(), entries_text(it.1).unwrap()),
            ),
        )
    } else {
        None
    }
}

/// The JSON text of a category: an object of its items in ascending order of
/// their names.
pub open spec fn items_text(items: Items) -> Option<Seq<char>> {
    match item_members(listing(items)) {
        Some(ms) => Some(object_text(ms)),
        None => None,
    }
}

/// The categories of a wallet as members of an object.
pub open spec fn category_members(cs: Seq<(Seq<char>, Items)>) -> Option<
    Seq<(Seq<char>, Seq<char>)>,
> {
    if forall|i: int|
        0 <= i < cs.len() ==> json_string(#[trigger] cs[i].0) is Some && items_text(cs[i].1) is Some {
        Some(
            cs.map_values(
                |c: (Seq<char>, Items)| (json_string(c.0).unwrap(), items_text(c.1).unwrap()),
            ),
        )
    } else {
        None
    }
}

/// The JSON text of a wallet: an object of its categories in ascending order
/// of their names.
pub open spec fn wallet_text(categories: Categories) -> Option<Seq<char>> {
    match category_members(listing(categories)) {
        Some(ms) => Some(object_text(ms)),
        None => None,
    }
}

/// Writes a string as a JSON string literal; fails where `serde_json` does.
pub fn string_to_json(s: &String) -> (r: Result<String, WalletError>)
    ensures
        match json_string(s@) {
            Some(t) => r is Ok && r.unwrap()@ == t,
            None => r == Err::<String, WalletError>(WalletError::SaveError),
        },
{
    match quote(s.as_str()) {
        Some(t) => Ok(t),
        None => Err(WalletError::SaveError),
    }
}

impl Item {
    /// The item as JSON text; fails where a key or a value cannot be written.
    pub fn to_json(&self) -> (r: Result<String, WalletError>)
        requires
            self.wf(),
        ensures
            match entries_text(self@) {
                Some(t) => r is Ok && r.unwrap()@ == t,
                None => r == Err::<String, WalletError>(WalletError::SaveError),
            },
    {
        let n = self.entry_count();
        let ghost es = self.listed();
        proof {
            self.lemma_listed();
        }
        let mut members: Vec<(String, String)> = Vec::new();
        let mut i: usize = 0;
        while i < n
            invariant
                0 <= i <= n,
                n == es.len(),
                es == self.listed(),
                es == listing(self@),
                members@.len() == i,
                forall|j: int|
                    0 <= j < i ==> json_string(#[trigger] es[j].0) == Some(members@[j].0@)
                        && json_string(es[j].1) == Some(members@[j].1@),
            decreases n - i,
        {
            let k = quote(self.entry_key_at(i).as_str());
            let v = quote(self.entry_value_at(i).as_str());
            match (k, v) {
                (Some(k), Some(v)) => {
                    members.push((k, v));
                },
                _ => {
                    proof {
                        assert(!(json_string(es[i as int].0) is Some && json_string(
                            es[i as int].1,
                        ) is Some));
                    }
                    return Err(WalletError::SaveError);
                },
            }
            i = i + 1;
        }
        proof {
            assert(entry_members(es) is Some);
            assert(texts(members@) =~= entry_members(es).unwrap());
        }
        Ok(frame_object(&members))
    }
}

impl Category {
    /// The category as JSON text; fails where some string cannot be written.
    pub fn to_json(&self) -> (r: Result<String, WalletError>)
        requires
            self.wf(),
        ensures
            match items_text(self@) {
                Some(t) => r is Ok && r.unwrap()@ == t,
                None => r == Err::<String, WalletError>(WalletError::SaveError),
            },
    {
        let n = self.item_count();
        let ghost its = self.listed();
        proof {
            self.lemma_listed();
        }
        let mut members: Vec<(String, String)> = Vec::new();
        let mut i: usize = 0;
        while i < n
            invariant
                0 <= i <= n,
                n == its.len(),
                its == self.listed(),
                its == listing(self@),
                self.wf(),
                members@.len() == i,
                forall|j: int|
                    0 <= j < i ==> json_string(#[trigger] its[j].0) == Some(members@[j].0@)
                        && entries_text(its[j].1) == Some(members@[j].1@),
            decreases n - i,
        {
            let k = quote(self.item_key_at(i).as_str());
            let v = self.item_at(i).to_json();
            match (k, v) {
                (Some(k), Ok(v)) => {
                    members.push((k, v));
                },
                _ => {
                    proof {
                        assert(!(json_string(its[i as int].0) is Some && entries_text(
                            its[i as int].1,
                        ) is Some));
                    }
                    return Err(WalletError::SaveError);
                },
            }
            i = i + 1;
        }
        proof {
            assert(item_members(its) is Some);
            assert(texts(members@) =~= item_members(its).unwrap());
        }
        Ok(frame_object(&members))
    }
}

impl Wallet {
    /// The wallet as JSON text; fails where some string cannot be written.
    pub fn to_json(&self) -> (r: Result<String, WalletError>)
        requires
            self.wf(),
        ensures
            match wallet_text(self@) {
                Some(t) => r is Ok && r.unwrap()@ == t,
                None => r == Err::<String, WalletError>(WalletError::SaveError),
            },
    {
        let n = self.category_count();
        let ghost cs = self.listed();
        proof {
            self.lemma_listed();
        }
        let mut members: Vec<(String, String)> = Vec::new();
        let mut i: usize = 0;
        while i < n
            invariant
                0 <= i <= n,
                n == cs.len(),
                cs == self.listed(),
                cs == listing(self@),
                self.wf(),
                members@.len() == i,
                forall|j: int|
                    0 <= j < i ==> json_string(#[trigger] cs[j].0) == Some(members@[j].0@)
                        && items_text(cs[j].1) == Some(members@[j].1@),
            decreases n - i,
        {
            let k = quote(self.category_key_at(i).as_str());
            let v = self.category_at(i).to_json();
            match (k, v) {
                (Some(k), Ok(v)) => {
                    members.push((k, v));
                },
                _ => {
                    proof {
                        assert(!(json_string(cs[i as int].0) is Some && items_text(
                            cs[i as int].1,
                        ) is Some));
                    }
                    return Err(WalletError::SaveError);
                },
            }
            i = i + 1;
        }
        proof {
            assert(category_members(cs) is Some);
            assert(texts(members@) =~= category_members(cs).unwrap());
        }
        Ok(frame_object(&members))
    }

    /// The text to write to the file of the wallet.
    pub fn save(&self) -> (r: Result<String, WalletError>)
        requires
            self.wf(),
        ensures
            match wallet_text(self@) {
                Some(t) => r is Ok && r.unwrap()@ == t,
                None => r == Err::<String, WalletError>(WalletError::SaveError),
            },
    {
        self.to_json()
    }
}

} // verus!
