//! The document index: one writer whose queued additions and deletions
//! become visible together at each commit. A document is the list of terms
//! of its name, as the mixed tokenizer makes them, with its path.
use vstd::prelude::*;
use vstd::multiset::Multiset;
use tantivy::collector::TopDocs;
use tantivy::query::BooleanQuery;
use tantivy::schema::{
    Field, IndexRecordOption, Schema, TextFieldIndexing, TextOptions, Value, INDEXED, STORED,
};
use tantivy::tokenizer::PreTokenizedString;
use tantivy::{Index, IndexWriter, TantivyDocument, TantivyError, Term};
use crate::tokenizer::{mixed_spec, mixed_tokens, Token};
use crate::paths::texts;

verus! {

#[verifier::external_type_specification]
#[verifier::external_body]
pub struct ExIndex(tantivy::Index);

#[verifier::external_type_specification]
#[verifier::external_body]
pub struct ExTantivyError(tantivy::TantivyError);

/// A tantivy index writer together with the two fields of the fixed schema
/// that it writes: the name terms and the path bytes of each document.
#[verifier::external_body]
pub struct DocWriter {
    writer: IndexWriter,
    name_field: Field,
    path_field: Field,
}

/// The committed, live documents of the index that a writer writes to: the
/// terms indexed for the name field and the bytes of the path field.
pub uninterp spec fn live_docs(w: DocWriter) -> Multiset<(Seq<Seq<char>>, Seq<char>)>;

/// The operations queued on a writer since its last commit, oldest first:
/// `(true, t, p)` adds a document with name terms `t` and path `p`,
/// `(false, _, p)` deletes every document whose path is `p`.
pub uninterp spec fn queued_ops(w: DocWriter) -> Seq<(bool, Seq<Seq<char>>, Seq<char>)>;

/// Whether the schema of an index is exactly a text field `name_field`,
/// tokenized by `tokenizer` and indexed with frequencies and positions, not
/// stored, and a bytes field `path_field`, indexed and stored.
pub uninterp spec fn conforms(
    i: tantivy::Index,
    name_field: Seq<char>,
    path_field: Seq<char>,
    tokenizer: Seq<char>,
) -> bool;

/// The longest term, in characters, that the index keeps: four bytes at most
/// to a character, within tantivy's limit of 65,530 bytes to a term.
pub const MAX_TERM_CHARS: usize = 16382;

/// Why an operation on the index failed.
#[derive(Clone, Copy, Debug, PartialEq, Eq, Structural)]
pub enum IndexError {
    /// The index could not be opened, read or committed, or its schema is
    /// not the fixed one.
    Corrupt,
    /// The writer refused a document; commit, then retry.
    Busy,
    /// The path has no non-empty segment to name the document by.
    Unnamed,
}

/// The texts of a list of tokens.
pub open spec fn term_texts(s: Seq<(Seq<char>, usize, usize, usize)>) -> Seq<Seq<char>> {
    s.map_values(|t: (Seq<char>, usize, usize, usize)| t.0)
}

/// The terms of `s` no longer than `MAX_TERM_CHARS`, in order.
pub open spec fn short_terms(s: Seq<Seq<char>>) -> Seq<Seq<char>>
    decreases s.len(),
{
    if s.len() == 0 {
        s
    } else if s.last().len() <= MAX_TERM_CHARS {
        short_terms(s.drop_last()).push(s.last())
    } else {
        short_terms(s.drop_last())
    }
}

/// The terms indexed for a name, or searched for a query: the texts of its
/// mixed tokens, without those longer than `MAX_TERM_CHARS`.
pub open spec fn name_terms(s: Seq<char>) -> Seq<Seq<char>> {
    short_terms(term_texts(mixed_spec(s)))
}

/// How many hits a search with room for `limit` of them returns: all the
/// matching documents, or `limit` of them where more match.
pub open spec fn hit_count(docs: Multiset<(Seq<Seq<char>>, Seq<char>)>, terms: Seq<Seq<char>>, limit: nat) -> nat {
    if matching(docs, terms).len() <= limit {
        matching(docs, terms).len()
    } else {
        limit
    }
}

/// Whether two lists of terms share a term.
pub open spec fn shares(a: Seq<Seq<char>>, b: Seq<Seq<char>>) -> bool {
    exists|i: int, j: int| 0 <= i < a.len() && 0 <= j < b.len() && a[i] == b[j]
}

/// The documents of `docs` whose name shares a term with `terms`.
pub open spec fn matching(docs: Multiset<(Seq<Seq<char>>, Seq<char>)>, terms: Seq<Seq<char>>) -> Multiset<
    (Seq<Seq<char>>, Seq<char>),
> {
    docs.filter(|d: (Seq<Seq<char>>, Seq<char>)| shares(d.0, terms))
}

/// `docs` without the documents whose path is `p`.
pub open spec fn without(docs: Multiset<(Seq<Seq<char>>, Seq<char>)>, p: Seq<char>) -> Multiset<
    (Seq<Seq<char>>, Seq<char>),
> {
    docs.filter(|d: (Seq<Seq<char>>, Seq<char>)| d.1 != p)
}

/// The live documents after applying `ops`, in order, to `docs`.
pub open spec fn apply_ops(
    docs: Multiset<(Seq<Seq<char>>, Seq<char>)>,
    ops: Seq<(bool, Seq<Seq<char>>, Seq<char>)>,
) -> Multiset<(Seq<Seq<char>>, Seq<char>)>
    decreases ops.len(),
{
    if ops.len() == 0 {
        docs
    } else {
        let prev = apply_ops(docs, ops.drop_last());
        let op = ops.last();
        if op.0 {
            prev.insert((op.1, op.2))
        } else {
            without(prev, op.2)
        }
    }
}

/// Whether some document of `docs` has path `p` and a name that shares a
/// term with `terms`.
pub open spec fn is_hit(docs: Multiset<(Seq<Seq<char>>, Seq<char>)>, p: Seq<char>, terms: Seq<Seq<char>>) -> bool {
    exists|d: (Seq<Seq<char>>, Seq<char>)| #[trigger] docs.count(d) > 0 && d.1 == p && shares(d.0, terms)
}

/// Whether some document of `docs` has path `p`.
pub open spec fn has_path(docs: Multiset<(Seq<Seq<char>>, Seq<char>)>, p: Seq<char>) -> bool {
    exists|d: (Seq<Seq<char>>, Seq<char>)| #[trigger] docs.count(d) > 0 && d.1 == p
}

proof fn lemma_apply_push(
    docs: Multiset<(Seq<Seq<char>>, Seq<char>)>,
    ops: Seq<(bool, Seq<Seq<char>>, Seq<char>)>,
    op: (bool, Seq<Seq<char>>, Seq<char>),
)
    ensures
        apply_ops(docs, ops.push(op)) == (if op.0 {
            apply_ops(docs, ops).insert((op.1, op.2))
        } else {
            without(apply_ops(docs, ops), op.2)
        }),
{
    assert(ops.push(op).drop_last() =~= ops);
}

/// Deleting a path and committing, done twice over, leaves the same live
/// documents each time, and none of them has that path; so no search after
/// it returns the path.
pub proof fn lemma_delete_idempotent(
    docs: Multiset<(Seq<Seq<char>>, Seq<char>)>,
    pending: Seq<(bool, Seq<Seq<char>>, Seq<char>)>,
    terms: Seq<Seq<char>>,
    p: Seq<char>,
)
    ensures
        ({
            let once = apply_ops(docs, pending.push((false, terms, p)));
            &&& apply_ops(once, seq![(false, terms, p)]) == once
            &&& apply_ops(once, seq![(false, terms, p)]).len() == once.len()
            &&& !has_path(once, p)
        }),
{
    broadcast use vstd::multiset::group_multiset_axioms;

    let once = apply_ops(docs, pending.push((false, terms, p)));
    lemma_apply_push(docs, pending, (false, terms, p));
    lemma_apply_push(once, Seq::empty(), (false, terms, p));
    assert(Seq::<(bool, Seq<Seq<char>>, Seq<char>)>::empty().push((false, terms, p)) =~= seq![
        (false, terms, p),
    ]);
    assert(without(once, p) =~= once);
}

/// Adding one document twice with no deletion between gives two more
/// documents with that path; a deletion of the path then takes both out.
pub proof fn lemma_duplicate_add(
    docs: Multiset<(Seq<Seq<char>>, Seq<char>)>,
    pending: Seq<(bool, Seq<Seq<char>>, Seq<char>)>,
    terms: Seq<Seq<char>>,
    p: Seq<char>,
)
    ensures
        ({
            let before = apply_ops(docs, pending);
            let ops = pending.push((true, terms, p)).push((true, terms, p));
            let after = apply_ops(docs, ops);
            &&& after.count((terms, p)) == before.count((terms, p)) + 2
            &&& after.len() == before.len() + 2
            &&& !has_path(apply_ops(docs, ops.push((false, terms, p))), p)
        }),
{
    broadcast use vstd::multiset::group_multiset_axioms;

    let ops = pending.push((true, terms, p)).push((true, terms, p));
    lemma_apply_push(docs, pending, (true, terms, p));
    lemma_apply_push(docs, pending.push((true, terms, p)), (true, terms, p));
    lemma_apply_push(docs, ops, (false, terms, p));
    let before = apply_ops(docs, pending);
    vstd::multiset::lemma_insert_len(before, (terms, p));
    vstd::multiset::lemma_insert_len(before.insert((terms, p)), (terms, p));
    vstd::multiset::lemma_insert_increases_count_by_1(before, (terms, p));
    vstd::multiset::lemma_insert_increases_count_by_1(before.insert((terms, p)), (terms, p));
}

/// A document added and committed under a name matches every query that
/// shares a term with that name; so a search for such a query returns its
/// path wherever no more documents match than the search returns.
pub proof fn lemma_added_document_matches(
    docs: Multiset<(Seq<Seq<char>>, Seq<char>)>,
    pending: Seq<(bool, Seq<Seq<char>>, Seq<char>)>,
    name: Seq<char>,
    p: Seq<char>,
    query: Seq<char>,
)
    requires
        shares(name_terms(name), name_terms(query)),
    ensures
        matching(apply_ops(docs, pending.push((true, name_terms(name), p))), name_terms(query)).count(
            (name_terms(name), p),
        ) > 0,
{
    broadcast use vstd::multiset::group_multiset_axioms;

    lemma_apply_push(docs, pending, (true, name_terms(name), p));
    let after = apply_ops(docs, pending).insert((name_terms(name), p));
    vstd::multiset::lemma_insert_increases_count_by_1(apply_ops(docs, pending), (name_terms(name), p));
    assert(after.count((name_terms(name), p)) > 0);
}

/// Relies on `Schema`'s builder and its `==`: whether the schema of the
/// index is the one that `conforms` describes. The builder panics on an
/// empty field name, one that starts with `-`, and two equal names.
#[verifier::external_body]
fn has_fixed_schema(index: &Index, name_field: &str, path_field: &str, tokenizer: &str) -> (r: bool)
    requires
        name_field@ != path_field@,
        name_field@.len() > 0 && name_field@[0] != '-',
        path_field@.len() > 0 && path_field@[0] != '-',
    ensures
        r == conforms(*index, name_field@, path_field@, tokenizer@),
{
    let mut builder = Schema::builder();
    let indexing = TextFieldIndexing::default().set_tokenizer(tokenizer).set_index_option(IndexRecordOption::WithFreqsAndPositions);
    builder.add_text_field(name_field, TextOptions::default().set_indexing_options(indexing));
    builder.add_bytes_field(path_field, INDEXED | STORED);
    index.schema() == builder.build()
}

/// Relies on `Schema::get_field` and `Index::writer`: a new writer, with
/// nothing queued, of the two fields named.
#[verifier::external_body]
fn open_writer(index: &Index, name_field: &str, path_field: &str, budget: usize) -> (r: Result<DocWriter, TantivyError>)
    requires
        exists|t: Seq<char>| conforms(*index, name_field@, path_field@, t),
    ensures
        r matches Ok(w) ==> queued_ops(w) == Seq::<(bool, Seq<Seq<char>>, Seq<char>)>::empty(),
{
    let schema = index.schema();
    Ok(DocWriter { name_field: schema.get_field(name_field)?, path_field: schema.get_field(path_field)?, writer: index.writer(budget)? })
}

/// Relies on `IndexWriter::add_document` with a `PreTokenizedString`: queues
/// one document whose name terms are the texts of `tokens`, visible only
/// after a commit. Each token is short enough for tantivy to index it.
#[verifier::external_body]
fn writer_add(w: &mut DocWriter, name: &str, tokens: &Vec<Token>, path: &str) -> (r: Result<u64, TantivyError>)
    requires
        forall|i: int| 0 <= i < tokens@.len() ==> (#[trigger] tokens@[i]).text@.len() <= MAX_TERM_CHARS,
    ensures
        live_docs(*final(w)) == live_docs(*old(w)),
        r is Ok ==> queued_ops(*final(w)) == queued_ops(*old(w)).push(
            (true, tokens@.map_values(|t: Token| t.text@), path@),
        ),
        r is Err ==> queued_ops(*final(w)) == queued_ops(*old(w)),
{
    let tokens = tokens.iter().map(|t| tantivy::tokenizer::Token { offset_from: t.offset_from, offset_to: t.offset_to, position: t.position, text: t.text.clone(), position_length: 1 }).collect();
    let mut doc = TantivyDocument::new();
    doc.add_pre_tokenized_text(w.name_field, PreTokenizedString { text: name.to_string(), tokens });
    doc.add_bytes(w.path_field, path.as_bytes());
    w.writer.add_document(doc)
}

/// Relies on `IndexWriter::delete_term` on the indexed path field: queues
/// the deletion of every document whose path bytes are those of `path`.
#[verifier::external_body]
fn writer_delete(w: &mut DocWriter, path: &str) -> (r: u64)
    ensures
        live_docs(*final(w)) == live_docs(*old(w)),
        queued_ops(*final(w)) == queued_ops(*old(w)).push((false, Seq::empty(), path@)),
{
    w.writer.delete_term(Term::from_field_bytes(w.path_field, path.as_bytes()))
}

/// Relies on `IndexWriter::commit`: publishes the queued operations in the
/// order they were queued.
#[verifier::external_body]
fn writer_commit(w: &mut DocWriter) -> (r: Result<u64, TantivyError>)
    ensures
        r is Ok ==> live_docs(*final(w)) == apply_ops(live_docs(*old(w)), queued_ops(*old(w))),
        r is Ok ==> queued_ops(*final(w)) == Seq::<(bool, Seq<Seq<char>>, Seq<char>)>::empty(),
{
    w.writer.commit()
}

/// Relies on `Index::reader` and `Searcher::num_docs`: a reader opened now
/// counts the live documents of the last commit.
#[verifier::external_body]
fn live_count(w: &DocWriter) -> (r: Result<u64, TantivyError>)
    ensures
        r matches Ok(n) ==> n == live_docs(*w).len(),
{
    Ok(w.writer.index().reader()?.searcher().num_docs())
}

/// Relies on `BooleanQuery::new_multiterms_query` over the name field and
/// `Searcher::search` with `TopDocs`: the stored paths of the `limit`
/// best-scored live documents whose name has one of the terms, or of all of
/// them where fewer match.
#[verifier::external_body]
fn search_terms(w: &DocWriter, terms: &Vec<String>, limit: usize) -> (r: Result<Vec<String>, TantivyError>)
    requires
        limit > 0,
    ensures
        r matches Ok(v) ==> v@.len() == hit_count(live_docs(*w), texts(terms@), limit as nat),
        r matches Ok(v) ==> forall|i: int|
            0 <= i < v@.len() ==> is_hit(live_docs(*w), #[trigger] v@[i]@, texts(terms@)),
        r matches Ok(v) ==> matching(live_docs(*w), texts(terms@)).len()
            <= limit ==> forall|d: (Seq<Seq<char>>, Seq<char>)|
            #[trigger] matching(live_docs(*w), texts(terms@)).count(d) > 0
                ==> texts(v@).contains(d.1),
{
    let searcher = w.writer.index().reader()?.searcher();
    let query = BooleanQuery::new_multiterms_query(terms.iter().map(|t| Term::from_field_text(w.name_field, t)).collect());
    let hits = searcher.search(&query, &TopDocs::with_limit(limit).order_by_score())?;
    let mut paths = Vec::new();
    for (_, address) in hits {
        let doc: TantivyDocument = searcher.doc(address)?;
        paths.push(String::from_utf8_lossy(doc.get_first(w.path_field).and_then(|v| v.as_bytes()).unwrap_or_default()).into_owned());
    }
    Ok(paths)
}

/// Relies on `SegmentReader::doc_ids_alive` and `StoreReader::get`: the
/// stored path of every live document of the last commit, one per document.
#[verifier::external_body]
fn list_live(w: &DocWriter) -> (r: Result<Vec<String>, TantivyError>)
    ensures
        r matches Ok(v) ==> v@.len() == live_docs(*w).len() && forall|i: int|
            0 <= i < v@.len() ==> has_path(live_docs(*w), #[trigger] v@[i]@),
{
    let searcher = w.writer.index().reader()?.searcher();
    let mut paths = Vec::new();
    for segment in searcher.segment_readers() {
        let store = segment.get_store_reader(10)?;
        for id in segment.doc_ids_alive() {
            let doc: TantivyDocument = store.get(id)?;
            paths.push(String::from_utf8_lossy(doc.get_first(w.path_field).and_then(|v| v.as_bytes()).unwrap_or_default()).into_owned());
        }
    }
    Ok(paths)
}

/// The tokens no longer than `MAX_TERM_CHARS`, in order.
fn short_tokens(tokens: &Vec<Token>) -> (r: Vec<Token>)
    ensures
        r@.map_values(|t: Token| t.text@) == short_terms(tokens@.map_values(|t: Token| t.text@)),
        forall|i: int| 0 <= i < r@.len() ==> (#[trigger] r@[i]).text@.len() <= MAX_TERM_CHARS,
{
    let mut out: Vec<Token> = Vec::new();
    let mut i: usize = 0;
    while i < tokens.len()
        invariant
            i <= tokens@.len(),
            out@.map_values(|t: Token| t.text@) == short_terms(
                tokens@.subrange(0, i as int).map_values(|t: Token| t.text@),
            ),
            forall|k: int| 0 <= k < out@.len() ==> (#[trigger] out@[k]).text@.len() <= MAX_TERM_CHARS,
        decreases tokens@.len() - i,
    {
        let ghost before = out@;
        proof {
            assert(tokens@.subrange(0, i + 1).map_values(|t: Token| t.text@).drop_last()
                =~= tokens@.subrange(0, i as int).map_values(|t: Token| t.text@));
        }
        let t = &tokens[i];
        if t.text.as_str().unicode_len() <= MAX_TERM_CHARS {
            let text = t.text.clone();
            out.push(Token { text, position: t.position, offset_from: t.offset_from, offset_to: t.offset_to });
            assert(out@.map_values(|t: Token| t.text@) =~= before.map_values(|t: Token| t.text@).push(
                tokens@[i as int].text@,
            ));
        }
        i = i + 1;
    }
    assert(tokens@.subrange(0, tokens@.len() as int) =~= tokens@);
    out
}

fn token_texts(tokens: &Vec<Token>) -> (r: Vec<String>)
    ensures
        texts(r@) == tokens@.map_values(|t: Token| t.text@),
{
    let mut out: Vec<String> = Vec::new();
    let mut i: usize = 0;
    while i < tokens.len()
        invariant
            i <= tokens@.len(),
            out@.len() == i,
            texts(out@) == tokens@.subrange(0, i as int).map_values(
                |t: Token| t.text@,
            ),
        decreases tokens@.len() - i,
    {
        let t = tokens[i].text.clone();
        assert(t@ == tokens@[i as int].text@);
        let ghost before = out@;
        out.push(t);
        proof {
            let want = tokens@.subrange(0, i + 1).map_values(|t: Token| t.text@);
            assert forall|j: int| 0 <= j < i + 1 implies texts(out@)[j] == want[j] by {
                if j < i {
                    assert(texts(before)[j] == tokens@.subrange(0, i as int).map_values(
                        |t: Token| t.text@,
                    )[j]);
                }
            }
            assert(texts(out@) =~= want);
        }
        i = i + 1;
    }
    assert(tokens@.subrange(0, tokens@.len() as int) =~= tokens@);
    out
}

/// The index store: a writer of the fixed schema, whose `name` field holds
/// the mixed tokenizer's terms and whose `path` field the exact path bytes.
pub struct TantivyIndex {
    writer: DocWriter,
}

/// The memory the writer may use before it must commit.
pub const WRITER_BUDGET: usize = 50_000_000;

impl TantivyIndex {
    /// The live documents.
    pub closed spec fn docs(&self) -> Multiset<(Seq<Seq<char>>, Seq<char>)> {
        live_docs(self.writer)
    }

    /// The operations queued since the last commit.
    pub closed spec fn pending(&self) -> Seq<(bool, Seq<Seq<char>>, Seq<char>)> {
        queued_ops(self.writer)
    }

    /// Opens the store on an index whose schema is the fixed one (see
    /// `conforms`, with fields "name" and "path" and the tokenizer "mixed");
    /// any other index is refused.
    pub fn new(index: &Index) -> (r: Result<TantivyIndex, IndexError>)
        ensures
            r matches Ok(s) ==> s.pending() == Seq::<(bool, Seq<Seq<char>>, Seq<char>)>::empty(),
            r is Ok ==> conforms(*index, "name"@, "path"@, "mixed"@),
            !conforms(*index, "name"@, "path"@, "mixed"@) ==> r == Err::<TantivyIndex, IndexError>(
                IndexError::Corrupt,
            ),
            r matches Err(e) ==> e == IndexError::Corrupt,
    {
        proof {
            reveal_strlit("name");
            reveal_strlit("path");
            assert("name"@[0] != "path"@[0]);
        }
        if !has_fixed_schema(index, "name", "path", "mixed") {
            return Err(IndexError::Corrupt);
        }
        match open_writer(index, "name", "path", WRITER_BUDGET) {
            Ok(writer) => Ok(TantivyIndex { writer }),
            Err(_) => Err(IndexError::Corrupt),
        }
    }

    /// Queues a document with this name and path; it becomes visible at the
    /// next commit. The name is indexed as its mixed tokenizer terms.
    pub fn add(&mut self, name: &str, path: &str) -> (r: Result<(), IndexError>)
        ensures
            final(self).docs() == old(self).docs(),
            r is Ok ==> final(self).pending() == old(self).pending().push(
                (true, name_terms(name@), path@),
            ),
            r matches Err(e) ==> e == IndexError::Busy && final(self).pending() == old(
                self,
            ).pending(),
    {
        let all = mixed_tokens(name);
        assert(all@.map_values(|t: Token| t.text@) =~= term_texts(mixed_spec(name@)));
        let tokens = short_tokens(&all);
        match writer_add(&mut self.writer, name, &tokens, path) {
            Ok(_) => Ok(()),
            Err(_) => Err(IndexError::Busy),
        }
    }

    /// Queues the deletion of every document whose path is exactly `path`.
    pub fn delete(&mut self, path: &str)
        ensures
            final(self).docs() == old(self).docs(),
            final(self).pending() == old(self).pending().push((false, Seq::empty(), path@)),
    {
        writer_delete(&mut self.writer, path);
    }

    /// Publishes every queued operation at once.
    pub fn commit(&mut self) -> (r: Result<(), IndexError>)
        ensures
            r is Ok ==> final(self).docs() == apply_ops(old(self).docs(), old(self).pending()),
            r is Ok ==> final(self).pending() == Seq::<(bool, Seq<Seq<char>>, Seq<char>)>::empty(),
            r matches Err(e) ==> e == IndexError::Corrupt,
    {
        match writer_commit(&mut self.writer) {
            Ok(_) => Ok(()),
            Err(_) => Err(IndexError::Corrupt),
        }
    }

    /// The number of live documents.
    pub fn get_num_docs(&self) -> (r: Result<u64, IndexError>)
        ensures
            r matches Ok(n) ==> n == self.docs().len(),
            r matches Err(e) ==> e == IndexError::Corrupt,
    {
        match live_count(&self.writer) {
            Ok(n) => Ok(n),
            Err(_) => Err(IndexError::Corrupt),
        }
    }

    /// The path of every live document, one per document.
    pub fn list_all(&self) -> (r: Result<Vec<String>, IndexError>)
        ensures
            r matches Ok(v) ==> v@.len() == self.docs().len() && forall|i: int|
                0 <= i < v@.len() ==> has_path(self.docs(), #[trigger] v@[i]@),
            r matches Err(e) ==> e == IndexError::Corrupt,
    {
        match list_live(&self.writer) {
            Ok(v) => Ok(v),
            Err(_) => Err(IndexError::Corrupt),
        }
    }

    /// The paths of the `limit` best-scored live documents whose name shares
    /// a term with the query, or of all of them where fewer match. The query
    /// is cut into terms by the same tokenizer as the names (see
    /// `name_terms`) and matches a name that holds any of them: it has no
    /// syntax of its own, so quotes, field prefixes and `+` or `-` only
    /// separate words. A query with no terms has no hits.
    pub fn search(&self, query: &str, limit: usize) -> (r: Result<Vec<String>, IndexError>)
        requires
            limit > 0,
        ensures
            r matches Ok(v) ==> v@.len() == hit_count(self.docs(), name_terms(query@), limit as nat),
            r matches Ok(v) ==> forall|i: int|
                0 <= i < v@.len() ==> is_hit(self.docs(), #[trigger] v@[i]@, name_terms(query@)),
            r matches Ok(v) ==> matching(self.docs(), name_terms(query@)).len() <= limit
                ==> forall|d: (Seq<Seq<char>>, Seq<char>)|
                #[trigger] matching(self.docs(), name_terms(query@)).count(d) > 0
                    ==> texts(v@).contains(d.1),
            name_terms(query@).len() == 0 ==> (r matches Ok(v) && v@.len() == 0),
            query@.len() == 0 ==> name_terms(query@).len() == 0,
            r matches Err(e) ==> e == IndexError::Corrupt,
    {
        let all = mixed_tokens(query);
        assert(all@.map_values(|t: Token| t.text@) =~= term_texts(mixed_spec(query@)));
        let tokens = short_tokens(&all);
        let terms = token_texts(&tokens);
        assert(texts(terms@) =~= name_terms(query@));
        if terms.len() == 0 {
            proof {
                assert forall|d: (Seq<Seq<char>>, Seq<char>)| matching(self.docs(), name_terms(query@)).count(d) == 0 by {
                    broadcast use vstd::multiset::group_multiset_axioms;
                }
                assert(matching(self.docs(), name_terms(query@)) =~= Multiset::empty());
            }
            return Ok(Vec::new());
        }
        match search_terms(&self.writer, &terms, limit) {
            Ok(v) => Ok(v),
            Err(_) => Err(IndexError::Corrupt),
        }
    }
}

} // verus!
