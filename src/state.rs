//! The state store: small persistent strings under string keys, kept in one
//! table of an embedded database file.
use vstd::prelude::*;
use redb::{Database, ReadableTable, TableDefinition};

verus! {

#[verifier::external_type_specification]
#[verifier::external_body]
pub struct ExDatabase(redb::Database);

#[verifier::external_type_specification]
#[verifier::external_body]
pub struct ExRedbError(redb::Error);

#[verifier::external_type_specification]
#[verifier::external_body]
pub struct ExDatabaseError(redb::DatabaseError);

#[verifier::external_type_specification]
#[verifier::external_body]
pub struct ExJsonError(serde_json::Error);

/// What the committed table `table` of a database holds; empty while the
/// table does not exist.
pub uninterp spec fn table_entries(db: redb::Database, table: Seq<char>) -> Map<Seq<char>, Seq<char>>;

/// The JSON text that encodes a list of strings.
pub uninterp spec fn json_of_strings(v: Seq<Seq<char>>) -> Seq<char>;

/// The list of strings that a JSON text encodes, where it encodes one.
pub uninterp spec fn strings_of_json(s: Seq<char>) -> Option<Seq<Seq<char>>>;

/// The name of the table that holds the state.
pub const TABLE_NAME: &'static str = "anything";

/// The text of each pair of a list.
pub open spec fn pair_texts(v: Seq<(String, String)>) -> Seq<(Seq<char>, Seq<char>)> {
    v.map_values(|p: (String, String)| (p.0@, p.1@))
}

/// `m` after writing each pair of `entries` in turn.
pub open spec fn put_all(m: Map<Seq<char>, Seq<char>>, entries: Seq<(Seq<char>, Seq<char>)>) -> Map<
    Seq<char>,
    Seq<char>,
>
    decreases entries.len(),
{
    if entries.len() == 0 {
        m
    } else {
        put_all(m, entries.drop_last()).insert(entries.last().0, entries.last().1)
    }
}

/// Whether `a` comes before `b` in the order of their characters' code
/// points, which is the byte order of their UTF-8 text.
pub open spec fn key_less(a: Seq<char>, b: Seq<char>) -> bool
    decreases a.len(),
{
    if a.len() == 0 {
        b.len() > 0
    } else if b.len() == 0 {
        false
    } else if a[0] != b[0] {
        (a[0] as u32) < (b[0] as u32)
    } else {
        key_less(a.drop_first(), b.drop_first())
    }
}

/// Whether `v` lists the pairs of `m`: each pair of `v` is in `m`, every key
/// of `m` is in `v`, and the keys come in strictly increasing order.
pub open spec fn lists_table(v: Seq<(String, String)>, m: Map<Seq<char>, Seq<char>>) -> bool {
    &&& forall|i: int|
        0 <= i < v.len() ==> m.contains_key(#[trigger] v[i].0@) && m[v[i].0@] == v[i].1@
    &&& forall|k: Seq<char>| #[trigger] m.contains_key(k) ==> exists|i: int| 0 <= i < v.len() && #[trigger] v[i].0@ == k
    &&& forall|i: int, j: int| 0 <= i < j < v.len() ==> key_less(#[trigger] v[i].0@, #[trigger] v[j].0@)
}

proof fn lemma_table_name()
    ensures
        TABLE_NAME@.len() > 0,
{
    reveal_strlit("anything");
}

/// Relies on `redb::Database::create`: opens the database file, creating it
/// where it is missing or empty.
#[verifier::external_body]
fn db_open(path: &str) -> (r: Result<Database, redb::DatabaseError>) {
    Database::create(path)
}

/// Relies on `ReadTransaction::open_table` and `ReadOnlyTable::get`: the
/// committed value under `key`; a missing table holds nothing.
#[verifier::external_body]
fn db_get(db: &Database, table: &str, key: &str) -> (r: Result<Option<String>, redb::Error>)
    requires
        table@.len() > 0,
    ensures
        r matches Ok(Some(v)) ==> table_entries(*db, table@).contains_key(key@) && table_entries(
            *db,
            table@,
        )[key@] == v@,
        r matches Ok(None) ==> !table_entries(*db, table@).contains_key(key@),
{
    let txn = db.begin_read()?;
    let t = match txn.open_table(TableDefinition::<&str, String>::new(table)) {
        Ok(t) => t,
        Err(redb::TableError::TableDoesNotExist(_)) => return Ok(None),
        Err(e) => return Err(e.into()),
    };
    Ok(t.get(key)?.map(|v| v.value()))
}

/// Relies on `WriteTransaction::open_table`, `Table::insert` and
/// `WriteTransaction::commit`: all the pairs are written in one transaction,
/// later pairs over earlier ones, once the commit succeeds.
#[verifier::external_body]
fn db_put_all(db: &mut Database, table: &str, entries: &Vec<(String, String)>) -> (r: Result<(), redb::Error>)
    requires
        table@.len() > 0,
    ensures
        r is Ok ==> table_entries(*final(db), table@) == put_all(
            table_entries(*old(db), table@),
            pair_texts(entries@),
        ),
{
    let txn = db.begin_write()?;
    {
        let mut t = txn.open_table(TableDefinition::<&str, String>::new(table))?;
        for (k, v) in entries {
            t.insert(k.as_str(), v.clone())?;
        }
    }
    Ok(txn.commit()?)
}

/// Relies on `ReadableTable::iter`: every committed pair of the table, each
/// key once, in key order.
#[verifier::external_body]
fn db_entries(db: &Database, table: &str) -> (r: Result<Vec<(String, String)>, redb::Error>)
    requires
        table@.len() > 0,
    ensures
        r matches Ok(v) ==> lists_table(v@, table_entries(*db, table@)),
{
    let txn = db.begin_read()?;
    let t = match txn.open_table(TableDefinition::<&str, String>::new(table)) {
        Ok(t) => t,
        Err(redb::TableError::TableDoesNotExist(_)) => return Ok(Vec::new()),
        Err(e) => return Err(e.into()),
    };
    let mut out = Vec::new();
    for pair in t.iter()? {
        let (k, v) = pair?;
        out.push((k.value().to_string(), v.value()));
    }
    Ok(out)
}

/// Relies on `serde_json::to_string` of a list of strings, which writes to
/// memory and so never fails, and reads back through `serde_json::from_str`.
#[verifier::external_body]
fn encode_strings(v: &Vec<String>) -> (r: Result<String, serde_json::Error>)
    ensures
        r is Ok,
        r matches Ok(s) ==> s@ == json_of_strings(v@.map_values(|x: String| x@)),
        r matches Ok(s) ==> strings_of_json(s@) == Some(v@.map_values(|x: String| x@)),
{
    serde_json::to_string(v)
}

/// Relies on `serde_json::from_str::<Vec<String>>`: the list a JSON text
/// encodes.
#[verifier::external_body]
fn decode_strings(s: &str) -> (r: Result<Vec<String>, serde_json::Error>)
    ensures
        r matches Ok(v) ==> strings_of_json(s@) == Some(v@.map_values(|x: String| x@)),
        r is Err ==> strings_of_json(s@) is None,
{
    serde_json::from_str::<Vec<String>>(s)
}

/// Why a request to the state store failed.
#[derive(Clone, Copy, Debug, PartialEq, Eq, Structural)]
pub enum StoreError {
    /// The key holds no value.
    NotFound,
    /// The database file could not be opened, read or committed.
    Unavailable,
    /// A stored value is not in the form its key calls for.
    Malformed,
}

/// The state store.
pub struct Vaultify {
    db: Database,
    config_file: String,
    tantivy_path: String,
    writes: Ghost<Seq<(Seq<char>, Seq<char>)>>,
}

/// What the first run writes beside the two locations of the store.
pub struct VaultDefaults {
    pub home_dir: String,
    pub include_path: String,
    pub exclude_paths: Vec<String>,
    pub version: String,
}

/// The pairs that the first run writes, in order.
pub open spec fn default_entries(
    config_file: Seq<char>,
    tantivy_path: Seq<char>,
    d: VaultDefaults,
) -> Seq<(Seq<char>, Seq<char>)> {
    seq![
        ("home_dir"@, d.home_dir@),
        ("config_file"@, config_file),
        ("tantivy_path"@, tantivy_path),
        ("indexed"@, "false"@),
        ("refresh"@, "false"@),
        ("default_include_path"@, d.include_path@),
        ("indexed_files"@, "0"@),
        ("indexed_progress"@, "0.0"@),
        ("version"@, d.version@),
        ("default_exclude_path"@, json_of_strings(d.exclude_paths@.map_values(|x: String| x@))),
    ]
}

fn pair(k: &str, v: String) -> (r: (String, String))
    ensures
        r.0@ == k@,
        r.1@ == v@,
{
    (k.to_owned(), v)
}

impl Vaultify {
    /// What the store holds.
    pub closed spec fn entries(&self) -> Map<Seq<char>, Seq<char>> {
        table_entries(self.db, TABLE_NAME@)
    }

    /// The pairs written through this handle, oldest first.
    pub closed spec fn writes(&self) -> Seq<(Seq<char>, Seq<char>)> {
        self.writes@
    }

    /// The database file.
    pub closed spec fn config_file_spec(&self) -> Seq<char> {
        self.config_file@
    }

    /// The directory of the document index.
    pub closed spec fn tantivy_path_spec(&self) -> Seq<char> {
        self.tantivy_path@
    }

    /// Opens the store kept in `config_file`, beside an index kept under
    /// `tantivy_path`.
    pub fn setup(config_file: String, tantivy_path: String) -> (r: Result<Vaultify, StoreError>)
        ensures
            r matches Ok(v) ==> v.config_file_spec() == config_file@ && v.tantivy_path_spec()
                == tantivy_path@ && v.writes() == Seq::<(Seq<char>, Seq<char>)>::empty(),
            r matches Err(e) ==> e == StoreError::Unavailable,
    {
        match db_open(config_file.as_str()) {
            Ok(db) => Ok(Vaultify { db, config_file, tantivy_path, writes: Ghost(Seq::empty()) }),
            Err(_) => Err(StoreError::Unavailable),
        }
    }

    /// The database file.
    pub fn config_file(&self) -> (r: &String)
        ensures
            r@ == self.config_file_spec(),
    {
        &self.config_file
    }

    /// The directory of the document index.
    pub fn tantivy_path(&self) -> (r: &String)
        ensures
            r@ == self.tantivy_path_spec(),
    {
        &self.tantivy_path
    }

    /// The value under `key`, `None` where it holds none.
    pub fn lookup(&self, key: &str) -> (r: Result<Option<String>, StoreError>)
        ensures
            r matches Ok(Some(v)) ==> self.entries().contains_key(key@) && self.entries()[key@]
                == v@,
            r matches Ok(None) ==> !self.entries().contains_key(key@),
            r matches Err(e) ==> e == StoreError::Unavailable,
    {
        proof {
            lemma_table_name();
        }
        match db_get(&self.db, TABLE_NAME, key) {
            Ok(v) => Ok(v),
            Err(_) => Err(StoreError::Unavailable),
        }
    }

    /// The value under `key`; `NotFound` where it holds none.
    pub fn get(&self, key: &str) -> (r: Result<String, StoreError>)
        ensures
            r matches Ok(v) ==> self.entries().contains_key(key@) && self.entries()[key@] == v@,
            r matches Err(StoreError::NotFound) ==> !self.entries().contains_key(key@),
            r matches Err(e) ==> e == StoreError::NotFound || e == StoreError::Unavailable,
    {
        match self.lookup(key) {
            Ok(Some(v)) => Ok(v),
            Ok(None) => Err(StoreError::NotFound),
            Err(e) => Err(e),
        }
    }

    /// Writes `value` under `key`, durably before it returns.
    pub fn set(&mut self, key: &str, value: String) -> (r: Result<(), StoreError>)
        ensures
            r is Ok ==> final(self).entries() == old(self).entries().insert(key@, value@),
            r is Ok ==> final(self).writes() == old(self).writes().push((key@, value@)),
            r is Err ==> final(self).writes() == old(self).writes(),
            r matches Err(e) ==> e == StoreError::Unavailable,
            final(self).config_file_spec() == old(self).config_file_spec(),
            final(self).tantivy_path_spec() == old(self).tantivy_path_spec(),
    {
        let mut batch: Vec<(String, String)> = Vec::new();
        batch.push(pair(key, value));
        proof {
            assert(pair_texts(batch@) =~= seq![(key@, value@)]);
            assert(seq![(key@, value@)].drop_last() =~= Seq::<(Seq<char>, Seq<char>)>::empty());
            assert(put_all(self.entries(), seq![(key@, value@)]) == put_all(
                self.entries(),
                Seq::<(Seq<char>, Seq<char>)>::empty(),
            ).insert(key@, value@));
        }
        proof {
            lemma_table_name();
        }
        match db_put_all(&mut self.db, TABLE_NAME, &batch) {
            Ok(()) => {
                self.writes = Ghost(self.writes@.push((key@, value@)));
                Ok(())
            },
            Err(_) => Err(StoreError::Unavailable),
        }
    }

    /// Writes all the pairs at once: a reader sees all of them or none.
    pub fn batch_set(&mut self, entries: &Vec<(String, String)>) -> (r: Result<(), StoreError>)
        ensures
            r is Ok ==> final(self).entries() == put_all(old(self).entries(), pair_texts(entries@)),
            r is Ok ==> final(self).writes() == old(self).writes() + pair_texts(entries@),
            r is Err ==> final(self).writes() == old(self).writes(),
            r matches Err(e) ==> e == StoreError::Unavailable,
            final(self).config_file_spec() == old(self).config_file_spec(),
            final(self).tantivy_path_spec() == old(self).tantivy_path_spec(),
    {
        proof {
            lemma_table_name();
        }
        match db_put_all(&mut self.db, TABLE_NAME, entries) {
            Ok(()) => {
                self.writes = Ghost(self.writes@ + pair_texts(entries@));
                Ok(())
            },
            Err(_) => Err(StoreError::Unavailable),
        }
    }

    /// Every pair the store holds.
    pub fn list_all(&self) -> (r: Result<Vec<(String, String)>, StoreError>)
        ensures
            r matches Ok(v) ==> lists_table(v@, self.entries()),
            r matches Err(e) ==> e == StoreError::Unavailable,
    {
        proof {
            lemma_table_name();
        }
        match db_entries(&self.db, TABLE_NAME) {
            Ok(v) => Ok(v),
            Err(_) => Err(StoreError::Unavailable),
        }
    }

    /// Writes the first-run values (see `default_entries`) at once.
    pub fn init_config(&mut self, defaults: &VaultDefaults) -> (r: Result<(), StoreError>)
        ensures
            r is Ok ==> final(self).entries() == put_all(
                old(self).entries(),
                default_entries(old(self).config_file_spec(), old(self).tantivy_path_spec(), *defaults),
            ),
            r is Ok ==> final(self).entries().contains_key("default_exclude_path"@) && strings_of_json(
                final(self).entries()["default_exclude_path"@],
            ) == Some(defaults.exclude_paths@.map_values(|x: String| x@)),
            r matches Err(e) ==> e == StoreError::Unavailable,
            final(self).config_file_spec() == old(self).config_file_spec(),
            final(self).tantivy_path_spec() == old(self).tantivy_path_spec(),
    {
        let excludes = match encode_strings(&defaults.exclude_paths) {
            Ok(s) => s,
            Err(_) => return Err(StoreError::Malformed),
        };
        let mut batch: Vec<(String, String)> = Vec::new();
        batch.push(pair("home_dir", defaults.home_dir.clone()));
        batch.push(pair("config_file", self.config_file.clone()));
        batch.push(pair("tantivy_path", self.tantivy_path.clone()));
        batch.push(pair("indexed", String::from_str("false")));
        batch.push(pair("refresh", String::from_str("false")));
        batch.push(pair("default_include_path", defaults.include_path.clone()));
        batch.push(pair("indexed_files", String::from_str("0")));
        batch.push(pair("indexed_progress", String::from_str("0.0")));
        batch.push(pair("version", defaults.version.clone()));
        batch.push(pair("default_exclude_path", excludes));
        proof {
            assert(pair_texts(batch@) =~= default_entries(
                self.config_file@,
                self.tantivy_path@,
                *defaults,
            ));
        }
        let ghost m = self.entries();
        let r = self.batch_set(&batch);
        proof {
            let b = pair_texts(batch@);
            assert(put_all(m, b) == put_all(m, b.drop_last()).insert(b.last().0, b.last().1));
        }
        r
    }

    /// Writes the first-run values unless the store already holds a
    /// `config_file` value.
    pub fn init_vault(&mut self, defaults: &VaultDefaults) -> (r: Result<(), StoreError>)
        ensures
            r is Ok && old(self).entries().contains_key("config_file"@) ==> final(self).entries()
                == old(self).entries(),
            r is Ok && !old(self).entries().contains_key("config_file"@) ==> final(self).entries()
                == put_all(
                old(self).entries(),
                default_entries(old(self).config_file_spec(), old(self).tantivy_path_spec(), *defaults),
            ),
            r is Ok && !old(self).entries().contains_key("config_file"@) ==> strings_of_json(
                final(self).entries()["default_exclude_path"@],
            ) == Some(defaults.exclude_paths@.map_values(|x: String| x@)),
    {
        match self.lookup("config_file") {
            Ok(Some(_)) => Ok(()),
            Ok(None) => self.init_config(defaults),
            Err(e) => Err(e),
        }
    }

    /// The exclusion prefixes kept under `default_exclude_path`.
    pub fn exclude_paths(&self) -> (r: Result<Vec<String>, StoreError>)
        ensures
            r matches Ok(v) ==> self.entries().contains_key("default_exclude_path"@)
                && strings_of_json(self.entries()["default_exclude_path"@]) == Some(
                v@.map_values(|x: String| x@),
            ),
            r matches Err(StoreError::NotFound) ==> !self.entries().contains_key(
                "default_exclude_path"@,
            ),
            r matches Err(StoreError::Malformed) ==> self.entries().contains_key(
                "default_exclude_path"@,
            ) && strings_of_json(self.entries()["default_exclude_path"@]) is None,
    {
        let text = self.get("default_exclude_path")?;
        match decode_strings(text.as_str()) {
            Ok(v) => Ok(v),
            Err(_) => Err(StoreError::Malformed),
        }
    }
}

} // verus!
