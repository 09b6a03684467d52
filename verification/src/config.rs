//! The options table that the editor hands to the plugin.
use nvim_oxi::{Dictionary, Object};
use vstd::prelude::*;

verus! {

#[verifier::external_type_specification]
#[verifier::external_body]
pub struct ExDictionary(nvim_oxi::Dictionary);

#[verifier::external_type_specification]
#[verifier::external_body]
pub struct ExObject(nvim_oxi::Object);

/// The entries of a table, in their order: the bytes of each key, and its value.
pub uninterp spec fn entries(table: nvim_oxi::Dictionary) -> Seq<(Seq<u8>, nvim_oxi::Object)>;

/// The value of the first entry under `key`.
pub open spec fn first_entry(entries: Seq<(Seq<u8>, Object)>, key: Seq<u8>) -> Option<Object>
    decreases entries.len(),
{
    if entries.len() == 0 {
        None
    } else if entries[0].0 == key {
        Some(entries[0].1)
    } else {
        first_entry(entries.drop_first(), key)
    }
}

/// `nvim_oxi::Dictionary::get`, for a query that is a string: it walks the entries
/// from the front, compares the bytes of each key with those of `key`, and returns
/// the value of the first that is equal; `None` if none is.
#[verifier::external_body]
pub(crate) fn get<'a>(table: &'a Dictionary, key: &str) -> (value: Option<&'a Object>)
    ensures
        match first_entry(entries(*table), vstd::utf8::encode_utf8(key@)) {
            Some(object) => value == Some(&object),
            None => value is None,
        },
{
    table.get(key)
}

/// The value that is found is that of an entry under the key, and no entry before it is
/// under the key; nothing is found only where no entry is.
pub proof fn law_first_entry_is_found(entries: Seq<(Seq<u8>, Object)>, key: Seq<u8>)
    ensures
        match first_entry(entries, key) {
            Some(object) => exists|i: int|
                #![trigger entries[i]]
                0 <= i < entries.len() && entries[i] == (key, object) && forall|j: int|
                    0 <= j < i ==> (#[trigger] entries[j]).0 != key,
            None => forall|j: int| 0 <= j < entries.len() ==> (#[trigger] entries[j]).0 != key,
        },
    decreases entries.len(),
{
    if entries.len() > 0 {
        let rest = entries.drop_first();
        if entries[0].0 == key {
            assert(entries[0] == (key, entries[0].1));
        } else {
            law_first_entry_is_found(rest, key);
            match first_entry(entries, key) {
                Some(object) => {
                    let i = choose|i: int|
                        #![trigger rest[i]]
                        0 <= i < rest.len() && rest[i] == (key, object) && forall|j: int|
                            0 <= j < i ==> (#[trigger] rest[j]).0 != key;
                    assert(entries[i + 1] == rest[i]);
                    assert forall|j: int| 0 <= j < i + 1 implies (#[trigger] entries[j]).0
                        != key by {
                        if j > 0 {
                            assert(rest[j - 1] == entries[j]);
                        }
                    }
                },
                None => {
                    assert forall|j: int| 0 <= j < entries.len() implies (#[trigger] entries[j]).0
                        != key by {
                        if j > 0 {
                            assert(rest[j - 1] == entries[j]);
                        }
                    }
                },
            }
        }
    }
}

} // verus!
