//! Tables by name.

use crate::keys::{single_key_bytes, utf8_tells_texts_apart};
use crate::ord_map::OrdMap;
use crate::values::Table;
use std::sync::Arc;
use vstd::prelude::*;
use vstd::utf8::encode_utf8;

verus! {

/// A set of tables, each with a name.
#[derive(Debug)]
pub struct Database {
    tables: OrdMap<Arc<Table>>,
}

impl Database {
    /// Whether there is a table of that name.
    pub closed spec fn has(&self, name: Seq<char>) -> bool {
        self.tables@.contains_key(encode_utf8(name))
    }

    /// The table of that name.
    pub closed spec fn named(&self, name: Seq<char>) -> Arc<Table> {
        self.tables@[encode_utf8(name)]
    }

    /// A database without tables.
    pub fn new() -> (r: Self)
        ensures
            forall|name: Seq<char>| !r.has(name),
    {
        Database { tables: OrdMap::new() }
    }

    /// Adds `table` under `name`, in place of any table of that name.
    pub fn add(&mut self, name: &str, table: Table)
        ensures
            forall|other: Seq<char>|
                final(self).has(other) <==> other == name@ || old(self).has(other),
            *final(self).named(name@) == table,
            forall|other: Seq<char>|
                other != name@ ==> #[trigger] final(self).named(other) == old(self).named(other),
    {
        proof {
            assert forall|other: Seq<char>| #[trigger] encode_utf8(other) == encode_utf8(
                name@,
            ) implies other == name@ by {
                utf8_tells_texts_apart(other, name@);
            }
        }
        self.tables.insert(single_key_bytes(name), Arc::new(table));
    }

    /// The table of that name.
    pub fn open(&self, name: &str) -> (r: Arc<Table>)
        requires
            self.has(name@),
        ensures
            r == self.named(name@),
    {
        let key: Vec<u8> = single_key_bytes(name);
        match self.tables.get(key.as_slice()) {
            Some(table) => table.clone(),
            None => vstd::pervasive::unreached(),
        }
    }
}

} // verus!
