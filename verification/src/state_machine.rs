use crate::text::{
    decimal, decimal_string, is_word, lemma_split_three_words, lemma_split_two_words,
    split_whitespace, split_ws, string_views,
};
use vstd::hash_map::StringHashMap;
use vstd::prelude::*;
use vstd::string::*;

verus! {

/// A replicated state machine: commands are applied to it in log order.
pub trait StateMachine {
    type Error;

    fn apply(&mut self, command: &str) -> Result<(), Self::Error>;

    fn get_state(&self) -> Result<String, Self::Error>;
}

/// What applying `command` to a store with contents `store` gives: the new
/// contents, and `Ok` or the error text.
///
/// A command is split into words at white space. `SET key value` binds
/// `key` to `value`; `GET key` is accepted and changes nothing. A command of
/// fewer than two words, a `SET` or `GET` with the wrong number of words, or
/// any other first word is refused and changes nothing.
pub open spec fn kv_apply(store: Map<Seq<char>, Seq<char>>, command: Seq<char>) -> (
    Map<Seq<char>, Seq<char>>,
    Result<(), Seq<char>>,
) {
    let parts = split_ws(command);
    if parts.len() < 2 {
        (store, Err("Invalid command"@))
    } else if parts[0] == "SET"@ {
        if parts.len() != 3 {
            (store, Err("SET requires key and value"@))
        } else {
            (store.insert(parts[1], parts[2]), Ok(()))
        }
    } else if parts[0] == "GET"@ {
        if parts.len() != 2 {
            (store, Err("GET requires key"@))
        } else {
            (store, Ok(()))
        }
    } else {
        (store, Err("Unknown command"@))
    }
}

/// The description that `get_state` gives of a store of `n` entries.
pub open spec fn kv_state_text(n: nat) -> Seq<char> {
    "KeyValueStore with "@ + decimal(n) + " entries"@
}

/// A key-value store driven by `SET` and `GET` commands.
pub struct KeyValueStore {
    store: StringHashMap<String>,
}

impl View for KeyValueStore {
    type V = Map<Seq<char>, Seq<char>>;

    closed spec fn view(&self) -> Map<Seq<char>, Seq<char>> {
        self.store@.map_values(|v: String| v@)
    }
}

impl KeyValueStore {
    /// An empty store.
    pub fn new() -> (kv: Self)
        ensures
            kv@ == Map::<Seq<char>, Seq<char>>::empty(),
    {
        let kv = Self { store: StringHashMap::new() };
        assert(kv@ =~= Map::<Seq<char>, Seq<char>>::empty());
        kv
    }

    /// The value bound to `key`, if any.
    pub fn get_key(&self, key: &str) -> (value: Option<&String>)
        ensures
            match value {
                Some(v) => self@.contains_key(key@) && v@ == self@[key@],
                None => !self@.contains_key(key@),
            },
    {
        self.store.get(key)
    }
}

fn text(lit: &str) -> (s: String)
    ensures
        s@ == lit@,
{
    String::from_str(lit)
}

impl StateMachine for KeyValueStore {
    type Error = String;

    fn apply(&mut self, command: &str) -> (result: Result<(), String>)
        ensures
            final(self)@ == kv_apply(old(self)@, command@).0,
            match result {
                Ok(()) => kv_apply(old(self)@, command@).1 is Ok,
                Err(e) => kv_apply(old(self)@, command@).1 == Err::<(), Seq<char>>(e@),
            },
    {
        proof {
            reveal_strlit("SET");
            reveal_strlit("GET");
            reveal_strlit("Invalid command");
            reveal_strlit("SET requires key and value");
            reveal_strlit("GET requires key");
            reveal_strlit("Unknown command");
        }
        let parts = split_whitespace(command);
        let ghost words = split_ws(command@);
        assert(words.len() == parts@.len());
        assert(forall|i: int| 0 <= i < parts@.len() ==> words[i] == #[trigger] parts@[i]@) by {
            assert(words == string_views(parts@));
        }
        if parts.len() < 2 {
            return Err(text("Invalid command"));
        }
        if parts[0] == text("SET") {
            if parts.len() != 3 {
                return Err(text("SET requires key and value"));
            }
            let key = parts[1].clone();
            let value = parts[2].clone();
            let ghost before = self.store@;
            self.store.insert(key, value);
            assert(self@ =~= kv_apply(old(self)@, command@).0) by {
                assert(self.store@ == before.insert(key@, value));
            }
            Ok(())
        } else if parts[0] == text("GET") {
            if parts.len() != 2 {
                return Err(text("GET requires key"));
            }
            Ok(())
        } else {
            Err(text("Unknown command"))
        }
    }

    fn get_state(&self) -> (result: Result<String, String>)
        ensures
            result matches Ok(s) && s@ == kv_state_text(self@.len()),
    {
        proof {
            reveal_strlit("KeyValueStore with ");
            reveal_strlit(" entries");
        }
        let n = self.store.len();
        let mut s = text("KeyValueStore with ");
        let digits = decimal_string(n as u64);
        s.append(digits.as_str());
        s.append(" entries");
        proof {
            assert(self@.dom() =~= self.store@.dom());
        }
        Ok(s)
    }
}

proof fn lemma_keywords()
    ensures
        is_word("SET"@),
        is_word("GET"@),
        "SET"@ != "GET"@,
{
    reveal_strlit("SET");
    reveal_strlit("GET");
    assert("SET"@[0] != "GET"@[0]);
}

/// `SET key value` binds `key` to `value` and keeps every other binding:
/// a read of `key` afterwards gives `value`.
pub proof fn lemma_set_then_get(store: Map<Seq<char>, Seq<char>>, key: Seq<char>, value: Seq<char>)
    requires
        is_word(key),
        is_word(value),
    ensures
        kv_apply(store, "SET"@ + seq![' '] + key + seq![' '] + value) == (
            store.insert(key, value),
            Ok::<(), Seq<char>>(()),
        ),
        kv_apply(store, "SET"@ + seq![' '] + key + seq![' '] + value).0[key] == value,
        forall|other: Seq<char>|
            other != key ==> kv_apply(store, "SET"@ + seq![' '] + key + seq![' '] + value).0.contains_key(
                other,
            ) == store.contains_key(other),
{
    lemma_keywords();
    lemma_split_three_words("SET"@, key, value);
}

/// `GET key` is accepted and changes nothing.
pub proof fn lemma_get_changes_nothing(store: Map<Seq<char>, Seq<char>>, key: Seq<char>)
    requires
        is_word(key),
    ensures
        kv_apply(store, "GET"@ + seq![' '] + key) == (store, Ok::<(), Seq<char>>(())),
{
    lemma_keywords();
    lemma_split_two_words("GET"@, key);
}

/// A refused command leaves the store as it was.
pub proof fn lemma_refused_changes_nothing(store: Map<Seq<char>, Seq<char>>, command: Seq<char>)
    requires
        kv_apply(store, command).1 is Err,
    ensures
        kv_apply(store, command).0 == store,
{
}

/// The contents of a store that starts empty and is handed `cmds` in
/// order.
pub open spec fn kv_replay(cmds: Seq<Seq<char>>) -> Map<Seq<char>, Seq<char>>
    decreases cmds.len(),
{
    if cmds.len() == 0 {
        Map::empty()
    } else {
        kv_apply(kv_replay(cmds.drop_last()), cmds.last()).0
    }
}

/// The value of the last command of `cmds` that reads `SET key value`, if
/// any.
pub open spec fn last_set(cmds: Seq<Seq<char>>, key: Seq<char>) -> Option<Seq<char>>
    decreases cmds.len(),
{
    if cmds.len() == 0 {
        None
    } else {
        let words = split_ws(cmds.last());
        if words.len() == 3 && words[0] == "SET"@ && words[1] == key {
            Some(words[2])
        } else {
            last_set(cmds.drop_last(), key)
        }
    }
}

/// After any sequence of commands, a key holds the value of the last
/// `SET` of it, and is absent where no command set it. Such a `SET` is
/// always accepted, and no other command changes the key.
pub proof fn lemma_replay_last_set(cmds: Seq<Seq<char>>, key: Seq<char>)
    ensures
        kv_replay(cmds).contains_key(key) <==> last_set(cmds, key) is Some,
        kv_replay(cmds).contains_key(key) ==> kv_replay(cmds)[key] == last_set(cmds, key)->0,
    decreases cmds.len(),
{
    if cmds.len() > 0 {
        lemma_replay_last_set(cmds.drop_last(), key);
        let words = split_ws(cmds.last());
        let m = kv_replay(cmds.drop_last());
        if words.len() == 3 && words[0] == "SET"@ {
            assert(kv_apply(m, cmds.last()).0 == m.insert(words[1], words[2]));
        } else {
            assert(kv_apply(m, cmds.last()).0 == m);
        }
    }
}

} // verus!
