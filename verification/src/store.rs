//! The store: which URL each short code stands for.

use vstd::hash_map::*;
use vstd::prelude::*;
use vstd::relations::injective_on;
use vstd::set_lib::lemma_map_size;
use vstd::string::*;
use vstd::utf8::*;

verus! {

/// The model of a store: a finite map from a code to its URL, both as
/// bytes.
pub type StoreModel = Map<Seq<u8>, Seq<u8>>;

/// A volatile map from short code to URL.
pub struct Store {
    map: StringHashMap<String>,
}

impl View for Store {
    type V = StoreModel;

    closed spec fn view(&self) -> StoreModel {
        Map::new(
            |code: Seq<u8>| valid_utf8(code) && self.map@.contains_key(decode_utf8(code)),
            |code: Seq<u8>| encode_utf8(self.map@[decode_utf8(code)]@),
        )
    }
}

impl Store {
    #[verifier::type_invariant]
    spec fn finite(&self) -> bool {
        self.map@.dom().finite()
    }

    /// A key of the map underneath is in the model as its bytes.
    proof fn lemma_key(&self, key: Seq<char>)
        ensures
            self@.contains_key(encode_utf8(key)) == self.map@.contains_key(key),
            self.map@.contains_key(key) ==> self@[encode_utf8(key)] == encode_utf8(
                self.map@[key]@,
            ),
    {
        encode_utf8_valid_utf8(key);
        encode_utf8_decode_utf8(key);
    }

    /// The model's codes are the keys of the map underneath, encoded.
    proof fn lemma_dom(&self)
        ensures
            self@.dom() == self.map@.dom().map(|key: Seq<char>| encode_utf8(key)),
            injective_on(|key: Seq<char>| encode_utf8(key), self.map@.dom()),
    {
        let encode = |key: Seq<char>| encode_utf8(key);
        let image = self.map@.dom().map(encode);
        assert forall|code: Seq<u8>| self@.dom().contains(code) == image.contains(code) by {
            if self@.dom().contains(code) {
                decode_utf8_encode_utf8(code);
                assert(self.map@.dom().contains(decode_utf8(code)) && encode(decode_utf8(code))
                    == code);
            }
            if image.contains(code) {
                let key = choose|key: Seq<char>|
                    self.map@.dom().contains(key) && encode(key) == code;
                self.lemma_key(key);
            }
        }
        assert(self@.dom() =~= image);
        assert forall|a: Seq<char>, b: Seq<char>| #[trigger]
            encode(a) == #[trigger] encode(b) implies a == b by {
            encode_utf8_decode_utf8(a);
            encode_utf8_decode_utf8(b);
        }
    }

    /// An empty store.
    pub fn new() -> (store: Store)
        ensures
            store@ == StoreModel::empty(),
    {
        let store = Store { map: StringHashMap::new() };
        proof {
            assert(store@ =~= StoreModel::empty());
        }
        store
    }

    /// The URL that `code` stands for.
    pub fn get<'a>(&'a self, code: &str) -> (url: Option<&'a str>)
        ensures
            match url {
                Some(url) => self@.contains_key(code.spec_bytes()) && self@[code.spec_bytes()]
                    == url.spec_bytes(),
                None => !self@.contains_key(code.spec_bytes()),
            },
    {
        proof {
            self.lemma_key(code@);
        }
        match self.map.get(code) {
            Some(url) => Some(url.as_str()),
            None => None,
        }
    }

    /// Lets `code` stand for `url`, whatever it stood for before.
    pub fn insert(&mut self, code: String, url: String)
        ensures
            final(self)@ == old(self)@.insert(encode_utf8(code@), encode_utf8(url@)),
    {
        proof {
            use_type_invariant(&*self);
        }
        let ghost before = *self;
        // The map is taken out while it changes, so that the store is whole
        // at every step.
        let mut taken = Store::new();
        core::mem::swap(self, &mut taken);
        let Store { mut map } = taken;
        map.insert(code, url);
        *self = Store { map };
        proof {
            let after = *self;
            let added = encode_utf8(code@);
            encode_utf8_valid_utf8(code@);
            encode_utf8_decode_utf8(code@);
            assert forall|k: Seq<u8>| after@.contains_key(k) == before@.insert(
                added,
                encode_utf8(url@),
            ).contains_key(k) by {
                if valid_utf8(k) {
                    decode_utf8_encode_utf8(k);
                }
            }
            assert forall|k: Seq<u8>| after@.contains_key(k) implies after@[k] == before@.insert(
                added,
                encode_utf8(url@),
            )[k] by {
                decode_utf8_encode_utf8(k);
            }
            assert(after@ =~= before@.insert(added, encode_utf8(url@)));
        }
    }

    /// How many codes the store holds.
    pub fn len(&self) -> (n: usize)
        ensures
            self@.dom().finite(),
            n == self@.len(),
    {
        proof {
            use_type_invariant(self);
            self.lemma_dom();
            lemma_map_size(
                self.map@.dom(),
                self@.dom(),
                |key: Seq<char>| encode_utf8(key),
            );
            broadcast use vstd::hash_map::axiom_string_hash_map_spec_len;
        }
        self.map.len()
    }
}

} // verus!
