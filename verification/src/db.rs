//! `SQLite` storage for chunks and embedding vectors: the statements and what their rows mean.
use vstd::multiset::Multiset;
use vstd::prelude::*;
use vstd::seq_lib::to_multiset_build;
use vstd::seq_lib::to_multiset_contains;
use vstd::seq_lib::to_multiset_len;
use vstd::seq_lib::to_multiset_remove;

use crate::text::outcome;

verus! {

/// The tables of the index.
pub const SCHEMA: &'static str = r"
CREATE TABLE IF NOT EXISTS chunks (
    id INTEGER PRIMARY KEY AUTOINCREMENT,
    path TEXT NOT NULL,
    ordinal INTEGER NOT NULL,
    text TEXT NOT NULL,
    UNIQUE(path, ordinal)
);
CREATE TABLE IF NOT EXISTS embeddings (
    chunk_id INTEGER PRIMARY KEY,
    dim INTEGER NOT NULL,
    vec BLOB NOT NULL,
    FOREIGN KEY (chunk_id) REFERENCES chunks(id) ON DELETE CASCADE
);
CREATE TABLE IF NOT EXISTS files (
    path TEXT PRIMARY KEY,
    content_hash TEXT NOT NULL,
    size_bytes INTEGER NOT NULL,
    mtime_ms INTEGER NOT NULL,
    indexed_at_ms INTEGER NOT NULL
);
CREATE INDEX IF NOT EXISTS idx_chunks_path ON chunks(path);
";

/// The settings of a fresh connection: chunks take their embeddings with them.
pub const PRAGMAS: &'static str = r"
PRAGMA foreign_keys = ON;
PRAGMA journal_mode = WAL;
";

/// One step of opening the index.
pub enum OpenStep {
    /// Create the directory that holds the database file, and those above it.
    CreateParent,
    /// Open the database file.
    Open,
    /// Run a batch of statements.
    Batch(&'static str),
}

/// What a step of opening the index is.
pub enum OpenStepView {
    CreateParent,
    Open,
    Batch(Seq<char>),
}

impl DeepView for OpenStep {
    type V = OpenStepView;

    open spec fn deep_view(&self) -> OpenStepView {
        match *self {
            OpenStep::CreateParent => OpenStepView::CreateParent,
            OpenStep::Open => OpenStepView::Open,
            OpenStep::Batch(sql) => OpenStepView::Batch(sql@),
        }
    }
}

/// What a step is seen to be is what it is.
pub proof fn open_step_is_seen_whole(step: OpenStep)
    ensures
        step is CreateParent <==> step.deep_view() is CreateParent,
        step is Open <==> step.deep_view() is Open,
        step matches OpenStep::Batch(sql) ==> step.deep_view() == OpenStepView::Batch(sql@),
{
}

/// The steps that open the index, in order. The first that fails ends the opening.
///
/// `parent` is the directory part of the database path. It is created unless it is empty.
pub fn open_db(parent: Option<&str>) -> (steps: Vec<OpenStep>)
    ensures
        steps.deep_view() == (if parent matches Some(directory) && directory@.len() > 0 {
            seq![OpenStepView::CreateParent]
        } else {
            seq![]
        }) + seq![OpenStepView::Open, OpenStepView::Batch(PRAGMAS@), OpenStepView::Batch(SCHEMA@)],
        PRAGMAS@ == r"
PRAGMA foreign_keys = ON;
PRAGMA journal_mode = WAL;
"@,
        SCHEMA@ == r"
CREATE TABLE IF NOT EXISTS chunks (
    id INTEGER PRIMARY KEY AUTOINCREMENT,
    path TEXT NOT NULL,
    ordinal INTEGER NOT NULL,
    text TEXT NOT NULL,
    UNIQUE(path, ordinal)
);
CREATE TABLE IF NOT EXISTS embeddings (
    chunk_id INTEGER PRIMARY KEY,
    dim INTEGER NOT NULL,
    vec BLOB NOT NULL,
    FOREIGN KEY (chunk_id) REFERENCES chunks(id) ON DELETE CASCADE
);
CREATE TABLE IF NOT EXISTS files (
    path TEXT PRIMARY KEY,
    content_hash TEXT NOT NULL,
    size_bytes INTEGER NOT NULL,
    mtime_ms INTEGER NOT NULL,
    indexed_at_ms INTEGER NOT NULL
);
CREATE INDEX IF NOT EXISTS idx_chunks_path ON chunks(path);
"@,
{
    let mut steps: Vec<OpenStep> = Vec::new();
    if let Some(directory) = parent {
        if !directory.is_empty() {
            steps.push(OpenStep::CreateParent);
        }
    }
    steps.push(OpenStep::Open);
    steps.push(OpenStep::Batch(PRAGMAS));
    steps.push(OpenStep::Batch(SCHEMA));
    steps
}

/// A value bound to a statement.
pub enum SqlValue {
    Text(String),
    Integer(i64),
    Blob(Vec<u8>),
}

/// What a bound value holds.
pub enum SqlValueView {
    Text(Seq<char>),
    Integer(i64),
    Blob(Seq<u8>),
}

impl DeepView for SqlValue {
    type V = SqlValueView;

    open spec fn deep_view(&self) -> SqlValueView {
        match *self {
            SqlValue::Text(text) => SqlValueView::Text(text@),
            SqlValue::Integer(number) => SqlValueView::Integer(number),
            SqlValue::Blob(bytes) => SqlValueView::Blob(bytes@),
        }
    }
}

/// A statement and the values bound to its parameters, the first to `?1` and so on.
pub struct Statement {
    pub sql: &'static str,
    pub params: Vec<SqlValue>,
}

/// What a statement asks.
#[verifier::ext_equal]
pub struct StatementView {
    pub sql: Seq<char>,
    pub params: Seq<SqlValueView>,
}

impl DeepView for Statement {
    type V = StatementView;

    open spec fn deep_view(&self) -> StatementView {
        StatementView { sql: self.sql@, params: self.params.deep_view() }
    }
}

/// What a statement is seen to ask is what it asks, parameter by parameter.
pub proof fn statement_is_seen_whole(statement: Statement)
    ensures
        statement.deep_view().sql == statement.sql@,
        statement.deep_view().params.len() == statement.params@.len(),
        forall|i: int|
            #![trigger statement.params@[i]]
            0 <= i < statement.params@.len() ==> statement.deep_view().params[i] == (
            match statement.params@[i] {
                SqlValue::Text(text) => SqlValueView::Text(text@),
                SqlValue::Integer(number) => SqlValueView::Integer(number),
                SqlValue::Blob(bytes) => SqlValueView::Blob(bytes@),
            }),
{
}

/// Empties every table.
pub const TRUNCATE_INDEX: &'static str =
    "DELETE FROM embeddings; DELETE FROM chunks; DELETE FROM files;";

/// Reads what is known of one file.
pub const SELECT_FILE_META: &'static str =
    "SELECT content_hash, size_bytes, mtime_ms FROM files WHERE path=?1 LIMIT 1";

/// Records what is known of one file, in place of what was known before.
pub const UPSERT_FILE_META: &'static str = r"
INSERT INTO files(path, content_hash, size_bytes, mtime_ms, indexed_at_ms)
VALUES (?1, ?2, ?3, ?4, ?5)
ON CONFLICT(path) DO UPDATE SET
  content_hash=excluded.content_hash,
  size_bytes=excluded.size_bytes,
  mtime_ms=excluded.mtime_ms,
  indexed_at_ms=excluded.indexed_at_ms
";

/// Drops the chunks of one file; their embeddings go with them.
pub const DELETE_CHUNKS: &'static str = "DELETE FROM chunks WHERE path=?1";

/// Forgets one file.
pub const DELETE_FILE: &'static str = "DELETE FROM files WHERE path=?1";

/// Reads the paths of all files.
pub const SELECT_FILES: &'static str = "SELECT path FROM files";

/// Adds a chunk.
pub const INSERT_CHUNK: &'static str =
    "INSERT INTO chunks (path, ordinal, text) VALUES (?1, ?2, ?3)";

/// Adds the embedding of a chunk.
pub const INSERT_EMBEDDING: &'static str =
    "INSERT INTO embeddings (chunk_id, dim, vec) VALUES (?1, ?2, ?3)";

/// Reads every chunk that has an embedding.
pub const SELECT_INDEXED: &'static str = "SELECT c.path, c.text, e.dim, e.vec FROM chunks c
         INNER JOIN embeddings e ON e.chunk_id = c.id";

/// Counts the chunks.
pub const COUNT_CHUNKS: &'static str = "SELECT COUNT(*) FROM chunks";

/// The message for an embedding whose length no column can hold.
pub const DIM_TOO_LARGE: &'static str = "embedding dim too large";

/// The message for a stored length that is none.
pub const INVALID_DIM: &'static str = "invalid embedding dim in db";

/// The batch that empties the index.
pub fn truncate_index() -> (batch: &'static str)
    ensures
        batch@ == TRUNCATE_INDEX@,
        batch@ == "DELETE FROM embeddings; DELETE FROM chunks; DELETE FROM files;"@,
{
    TRUNCATE_INDEX
}

/// The query for the number of chunks; its one row holds the count.
pub fn chunk_count() -> (statement: Statement)
    ensures
        statement.deep_view() == (StatementView { sql: COUNT_CHUNKS@, params: seq![] }),
        statement.sql@ == "SELECT COUNT(*) FROM chunks"@,
{
    Statement { sql: COUNT_CHUNKS, params: Vec::new() }
}

/// What the store knows of an ingested file.
#[derive(Clone, Debug)]
pub struct FileMeta {
    pub content_hash: String,
    pub size_bytes: i64,
    pub mtime_ms: i64,
}

/// What a file's record holds.
#[verifier::ext_equal]
pub struct FileMetaView {
    pub content_hash: Seq<char>,
    pub size_bytes: i64,
    pub mtime_ms: i64,
}

impl DeepView for FileMeta {
    type V = FileMetaView;

    open spec fn deep_view(&self) -> FileMetaView {
        FileMetaView {
            content_hash: self.content_hash@,
            size_bytes: self.size_bytes,
            mtime_ms: self.mtime_ms,
        }
    }
}

/// What a record is seen to hold is what it holds.
pub proof fn file_meta_is_seen_whole(meta: FileMeta)
    ensures
        meta.deep_view().content_hash == meta.content_hash@,
        meta.deep_view().size_bytes == meta.size_bytes,
        meta.deep_view().mtime_ms == meta.mtime_ms,
{
}

/// The query for what is known of the file at `path`: at most one row, of hash, size and time.
pub fn file_meta_query(path: &str) -> (statement: Statement)
    ensures
        statement.deep_view() == (StatementView {
            sql: SELECT_FILE_META@,
            params: seq![SqlValueView::Text(path@)],
        }),
        statement.sql@
            == "SELECT content_hash, size_bytes, mtime_ms FROM files WHERE path=?1 LIMIT 1"@,
{
    let mut params: Vec<SqlValue> = Vec::new();
    params.push(SqlValue::Text(path.to_string()));
    let statement = Statement { sql: SELECT_FILE_META, params };
    assert(statement.deep_view().params =~= seq![SqlValueView::Text(path@)]);
    statement
}

/// Whether a record tells of a file with this content, size and time.
pub open spec fn unchanged(
    recorded: Option<FileMetaView>,
    content_hash: Seq<char>,
    size_bytes: i64,
    mtime_ms: i64,
) -> bool {
    recorded == Some(FileMetaView { content_hash, size_bytes, mtime_ms })
}

/// A file is unchanged exactly where its content, its size and its time all are those recorded; a
/// file without a record never is.
pub proof fn any_difference_is_a_change(
    recorded: FileMetaView,
    content_hash: Seq<char>,
    size_bytes: i64,
    mtime_ms: i64,
)
    ensures
        !unchanged(None, content_hash, size_bytes, mtime_ms),
        unchanged(
            Some(recorded),
            recorded.content_hash,
            recorded.size_bytes,
            recorded.mtime_ms,
        ),
        recorded.content_hash != content_hash ==> !unchanged(
            Some(recorded),
            content_hash,
            size_bytes,
            mtime_ms,
        ),
        recorded.size_bytes != size_bytes ==> !unchanged(
            Some(recorded),
            content_hash,
            size_bytes,
            mtime_ms,
        ),
        recorded.mtime_ms != mtime_ms ==> !unchanged(
            Some(recorded),
            content_hash,
            size_bytes,
            mtime_ms,
        ),
{
}

/// Whether a file is still the one that `recorded` tells of.
///
/// `recorded` is the answer to [`file_meta_query`]: its row, if there is one, or why it could not
/// be read.
pub fn file_is_unchanged(
    recorded: Result<Option<FileMeta>, String>,
    content_hash: &str,
    size_bytes: i64,
    mtime_ms: i64,
) -> (verdict: Result<bool, String>)
    ensures
        outcome(verdict) == (match outcome(recorded) {
            Ok(meta) => Ok(unchanged(meta, content_hash@, size_bytes, mtime_ms)),
            Err(message) => Err(message),
        }),
{
    match recorded {
        Ok(Some(meta)) => Ok(
            meta.content_hash == content_hash.to_string() && meta.size_bytes == size_bytes
                && meta.mtime_ms == mtime_ms,
        ),
        Ok(None) => Ok(false),
        Err(message) => Err(message),
    }
}

/// What recording a file asks of the store.
pub open spec fn file_statement(
    path: Seq<char>,
    content_hash: Seq<char>,
    size_bytes: i64,
    mtime_ms: i64,
    indexed_at_ms: i64,
) -> StatementView {
    StatementView {
        sql: UPSERT_FILE_META@,
        params: seq![
            SqlValueView::Text(path),
            SqlValueView::Text(content_hash),
            SqlValueView::Integer(size_bytes),
            SqlValueView::Integer(mtime_ms),
            SqlValueView::Integer(indexed_at_ms),
        ],
    }
}

/// Recording a file binds each of its properties to the column that is named for it, as it is.
pub proof fn file_binds_its_properties(
    path: Seq<char>,
    content_hash: Seq<char>,
    size_bytes: i64,
    mtime_ms: i64,
    indexed_at_ms: i64,
)
    ensures
        ({
            let statement = file_statement(
                path,
                content_hash,
                size_bytes,
                mtime_ms,
                indexed_at_ms,
            );
            let bound = statement.params;
            &&& statement.sql == r"
INSERT INTO files(path, content_hash, size_bytes, mtime_ms, indexed_at_ms)
VALUES (?1, ?2, ?3, ?4, ?5)
ON CONFLICT(path) DO UPDATE SET
  content_hash=excluded.content_hash,
  size_bytes=excluded.size_bytes,
  mtime_ms=excluded.mtime_ms,
  indexed_at_ms=excluded.indexed_at_ms
"@
            &&& bound.len() == 5
            &&& bound[0] matches SqlValueView::Text(first) && first == path
            &&& bound[1] matches SqlValueView::Text(second) && second == content_hash
            &&& bound[2] matches SqlValueView::Integer(third) && third == size_bytes
            &&& bound[3] matches SqlValueView::Integer(fourth) && fourth == mtime_ms
            &&& bound[4] matches SqlValueView::Integer(fifth) && fifth == indexed_at_ms
        }),
{
}

/// The record that recording a file bound.
pub open spec fn file_record(statement: StatementView) -> FileMetaView {
    FileMetaView {
        content_hash: statement.params[1]->Text_0,
        size_bytes: statement.params[2]->Integer_0,
        mtime_ms: statement.params[3]->Integer_0,
    }
}

/// A file read from the record that was written of it counts as unchanged exactly as long as its
/// content, size and time are those written, whatever its path and whenever it was indexed.
pub proof fn recorded_file_is_unchanged(
    path: Seq<char>,
    content_hash: Seq<char>,
    size_bytes: i64,
    mtime_ms: i64,
    indexed_at_ms: i64,
    content_hash_now: Seq<char>,
    size_bytes_now: i64,
    mtime_ms_now: i64,
)
    ensures
        unchanged(
            Some(
                file_record(
                    file_statement(path, content_hash, size_bytes, mtime_ms, indexed_at_ms),
                ),
            ),
            content_hash_now,
            size_bytes_now,
            mtime_ms_now,
        ) <==> content_hash_now == content_hash && size_bytes_now == size_bytes && mtime_ms_now
            == mtime_ms,
{
}

/// The record of the file at `path`, which is what [`file_meta_query`] asks for, where the store
/// keeps `records` by path.
pub open spec fn record_at(records: Map<Seq<char>, FileMetaView>, path: Seq<char>) -> Option<
    FileMetaView,
> {
    if records.contains_key(path) {
        Some(records[path])
    } else {
        None
    }
}

/// The last record of a file wins, whether or not the file was known before; the records of other
/// files are as they were, and the file is listed once.
///
/// `before` are the records by path that the store kept. It keeps under `path` the record that was
/// written, in place of an earlier one. `files` are the paths of its records, each once.
pub proof fn last_record_wins(
    before: Map<Seq<char>, FileMetaView>,
    path: Seq<char>,
    content_hash: Seq<char>,
    size_bytes: i64,
    mtime_ms: i64,
    indexed_at_ms: i64,
    files: Seq<Seq<char>>,
    asked: Seq<char>,
    content_hash_now: Seq<char>,
    size_bytes_now: i64,
    mtime_ms_now: i64,
)
    requires
        files.no_duplicates(),
        files.to_set() == before.dom().insert(path),
    ensures
        ({
            let after = before.insert(
                path,
                file_record(
                    file_statement(path, content_hash, size_bytes, mtime_ms, indexed_at_ms),
                ),
            );
            let same = unchanged(
                record_at(after, asked),
                content_hash_now,
                size_bytes_now,
                mtime_ms_now,
            );
            &&& asked == path ==> same == (content_hash_now == content_hash && size_bytes_now
                == size_bytes && mtime_ms_now == mtime_ms)
            &&& asked != path ==> same == unchanged(
                record_at(before, asked),
                content_hash_now,
                size_bytes_now,
                mtime_ms_now,
            )
            &&& files.to_multiset().count(path) == 1
        }),
{
    recorded_file_is_unchanged(
        path,
        content_hash,
        size_bytes,
        mtime_ms,
        indexed_at_ms,
        content_hash_now,
        size_bytes_now,
        mtime_ms_now,
    );
    assert(files.to_set().contains(path));
    to_multiset_contains(files, path);
    files.lemma_multiset_has_no_duplicates();
    assert(files.to_multiset().contains(path));
}

/// The statement that records a file.
pub fn upsert_file_meta(
    path: &str,
    content_hash: &str,
    size_bytes: i64,
    mtime_ms: i64,
    indexed_at_ms: i64,
) -> (statement: Statement)
    ensures
        statement.deep_view() == file_statement(
            path@,
            content_hash@,
            size_bytes,
            mtime_ms,
            indexed_at_ms,
        ),
{
    let mut params: Vec<SqlValue> = Vec::new();
    params.push(SqlValue::Text(path.to_string()));
    params.push(SqlValue::Text(content_hash.to_string()));
    params.push(SqlValue::Integer(size_bytes));
    params.push(SqlValue::Integer(mtime_ms));
    params.push(SqlValue::Integer(indexed_at_ms));
    Statement { sql: UPSERT_FILE_META, params }
}

/// The statements that remove a file, in order: its chunks first (embeddings cascade), then its
/// record.
pub fn delete_file_and_chunks(path: &str) -> (statements: Vec<Statement>)
    ensures
        statements.deep_view() == seq![
            StatementView { sql: DELETE_CHUNKS@, params: seq![SqlValueView::Text(path@)] },
            StatementView { sql: DELETE_FILE@, params: seq![SqlValueView::Text(path@)] },
        ],
        DELETE_CHUNKS@ == "DELETE FROM chunks WHERE path=?1"@,
        DELETE_FILE@ == "DELETE FROM files WHERE path=?1"@,
{
    let mut chunks_of: Vec<SqlValue> = Vec::new();
    chunks_of.push(SqlValue::Text(path.to_string()));
    let mut file_at: Vec<SqlValue> = Vec::new();
    file_at.push(SqlValue::Text(path.to_string()));
    let mut statements: Vec<Statement> = Vec::new();
    statements.push(Statement { sql: DELETE_CHUNKS, params: chunks_of });
    statements.push(Statement { sql: DELETE_FILE, params: file_at });
    assert(chunks_of.deep_view() =~= seq![SqlValueView::Text(path@)]);
    assert(file_at.deep_view() =~= seq![SqlValueView::Text(path@)]);
    statements
}

/// The query for the paths of all files, one to a row.
pub fn files_query() -> (statement: Statement)
    ensures
        statement.deep_view() == (StatementView { sql: SELECT_FILES@, params: seq![] }),
        statement.sql@ == "SELECT path FROM files"@,
{
    Statement { sql: SELECT_FILES, params: Vec::new() }
}

/// The paths that the rows of [`files_query`] hold, in order, or why the first bad row could not
/// be read.
pub fn list_all_files(rows: Vec<Result<String, String>>) -> (files: Result<Vec<String>, String>)
    ensures
        match files {
            Ok(paths) => {
                &&& paths@.len() == rows@.len()
                &&& forall|i: int|
                    #![trigger rows@[i]]
                    0 <= i < rows@.len() ==> outcome(rows@[i]) == Ok::<_, Seq<char>>(paths@[i]@)
            },
            Err(message) => exists|i: int|
                #![trigger rows@[i]]
                {
                    &&& 0 <= i < rows@.len()
                    &&& outcome(rows@[i]) == Err::<Seq<char>, _>(message@)
                    &&& forall|k: int| 0 <= k < i ==> rows@[k] is Ok
                },
        },
{
    let mut paths: Vec<String> = Vec::new();
    for row in it: rows
        invariant
            it.seq() == rows@,
            paths@.len() == it.index(),
            forall|i: int|
                #![trigger rows@[i]]
                0 <= i < it.index() ==> outcome(rows@[i]) == Ok::<_, Seq<char>>(paths@[i]@),
    {
        match row {
            Ok(path) => paths.push(path),
            Err(message) => {
                assert(outcome(rows@[it.index() as int]) == Err::<Seq<char>, _>(message@));
                return Err(message);
            },
        }
    }
    Ok(paths)
}

/// What adding a chunk asks of the store.
pub open spec fn chunk_statement(path: Seq<char>, ordinal: i32, text: Seq<char>) -> StatementView {
    StatementView {
        sql: INSERT_CHUNK@,
        params: seq![
            SqlValueView::Text(path),
            SqlValueView::Integer(ordinal as i64),
            SqlValueView::Text(text),
        ],
    }
}

/// Adding a chunk binds its path, its ordinal and its text as they are.
pub proof fn chunk_binds_its_place_and_text(path: Seq<char>, ordinal: i32, text: Seq<char>)
    ensures
        ({
            let statement = chunk_statement(path, ordinal, text);
            let bound = statement.params;
            &&& statement.sql == "INSERT INTO chunks (path, ordinal, text) VALUES (?1, ?2, ?3)"@
            &&& bound.len() == 3
            &&& bound[0] matches SqlValueView::Text(first) && first == path
            &&& bound[1] matches SqlValueView::Integer(second) && second == ordinal
            &&& bound[2] matches SqlValueView::Text(third) && third == text
        }),
{
}

/// Chunks take the same place in the store only if they have the same path and the same ordinal:
/// the chunks of one file do not collide, whatever their texts.
pub proof fn chunks_collide_only_in_one_place(
    path: Seq<char>,
    ordinal: i32,
    text: Seq<char>,
    other_path: Seq<char>,
    other_ordinal: i32,
    other_text: Seq<char>,
)
    ensures
        ({
            let one = chunk_statement(path, ordinal, text).params;
            let other = chunk_statement(other_path, other_ordinal, other_text).params;
            one[0] == other[0] && one[1] == other[1] <==> path == other_path && ordinal
                == other_ordinal
        }),
{
}

/// The statement that adds a chunk; the row it makes gets the chunk's id.
pub fn insert_chunk(path: &str, ordinal: i32, text: &str) -> (statement: Statement)
    ensures
        statement.deep_view() == chunk_statement(path@, ordinal, text@),
{
    let mut params: Vec<SqlValue> = Vec::new();
    params.push(SqlValue::Text(path.to_string()));
    params.push(SqlValue::Integer(ordinal as i64));
    params.push(SqlValue::Text(text.to_string()));
    Statement { sql: INSERT_CHUNK, params }
}

/// Byte `at` of `word`, the lowest first.
pub open spec fn word_byte(word: u32, at: int) -> u8 {
    if at == 0 {
        (word % 0x100) as u8
    } else if at == 1 {
        (word / 0x100 % 0x100) as u8
    } else if at == 2 {
        (word / 0x1_0000 % 0x100) as u8
    } else {
        (word / 0x100_0000) as u8
    }
}

/// The bytes of `words`, four to a word, the lowest first.
pub open spec fn blob_of(words: Seq<u32>) -> Seq<u8> {
    Seq::new(4 * words.len(), |i: int| word_byte(words[i / 4], i % 4))
}

/// Word `at` of `blob`.
pub open spec fn blob_word(blob: Seq<u8>, at: int) -> u32 {
    (blob[4 * at] + 0x100 * blob[4 * at + 1] + 0x1_0000 * blob[4 * at + 2] + 0x100_0000 * blob[4
        * at + 3]) as u32
}

/// The words of `blob`.
pub open spec fn words_of(blob: Seq<u8>) -> Seq<u32> {
    Seq::new(blob.len() / 4, |i: int| blob_word(blob, i))
}

/// The bytes of a word make up the word.
proof fn lemma_bytes_make_the_word(word: u32)
    ensures
        word_byte(word, 0) + 0x100 * word_byte(word, 1) + 0x1_0000 * word_byte(word, 2)
            + 0x100_0000 * word_byte(word, 3) == word,
{
    let above = word / 0x100;
    let upper = word / 0x1_0000;
    let top = word / 0x100_0000;
    assert(word == 0x100 * above + word % 0x100);
    assert(above == 0x100 * upper + above % 0x100);
    assert(upper == 0x100 * top + upper % 0x100);
    assert(top < 0x100);
}

/// What is read of a stored vector is what was written.
pub proof fn blob_keeps_words(words: Seq<u32>)
    ensures
        blob_of(words).len() == 4 * words.len(),
        words_of(blob_of(words)) == words,
{
    assert forall|i: int| 0 <= i < words.len() implies blob_word(blob_of(words), i) == words[i] by {
        let blob = blob_of(words);
        assert(blob[4 * i] == word_byte(words[i], 0));
        assert(blob[4 * i + 1] == word_byte(words[i], 1));
        assert(blob[4 * i + 2] == word_byte(words[i], 2));
        assert(blob[4 * i + 3] == word_byte(words[i], 3));
        lemma_bytes_make_the_word(words[i]);
    }
    assert(words_of(blob_of(words)) =~= words);
}

/// Each word is stored in four bytes at its place, the lowest first.
pub proof fn words_are_stored_lowest_byte_first(words: Seq<u32>, at: int)
    requires
        0 <= at < words.len(),
    ensures
        blob_of(words).len() == 4 * words.len(),
        words[at] == blob_of(words)[4 * at] + 0x100 * blob_of(words)[4 * at + 1] + 0x1_0000
            * blob_of(words)[4 * at + 2] + 0x100_0000 * blob_of(words)[4 * at + 3],
{
    let blob = blob_of(words);
    assert(blob[4 * at] == word_byte(words[at], 0));
    assert(blob[4 * at + 1] == word_byte(words[at], 1));
    assert(blob[4 * at + 2] == word_byte(words[at], 2));
    assert(blob[4 * at + 3] == word_byte(words[at], 3));
    lemma_bytes_make_the_word(words[at]);
}

/// Each word is read from the four bytes at its place, the lowest first.
pub proof fn words_are_read_lowest_byte_first(blob: Seq<u8>, at: int)
    requires
        0 <= at,
        4 * at + 4 <= blob.len(),
    ensures
        words_of(blob).len() == blob.len() / 4,
        words_of(blob)[at] == blob[4 * at] + 0x100 * blob[4 * at + 1] + 0x1_0000 * blob[4 * at + 2]
            + 0x100_0000 * blob[4 * at + 3],
{
}

/// A blob of whole words is the one that its words are stored as.
pub proof fn words_keep_blob(blob: Seq<u8>)
    requires
        blob.len() % 4 == 0,
    ensures
        blob_of(words_of(blob)) == blob,
{
    assert forall|i: int| 0 <= i < blob.len() implies blob_of(words_of(blob))[i] == blob[i] by {
        let at = i / 4;
        let b0 = blob[4 * at] as int;
        let b1 = blob[4 * at + 1] as int;
        let b2 = blob[4 * at + 2] as int;
        let b3 = blob[4 * at + 3] as int;
        let word = b0 + 0x100 * b1 + 0x1_0000 * b2 + 0x100_0000 * b3;
        assert(word / 0x100 == b1 + 0x100 * b2 + 0x1_0000 * b3);
        assert(word / 0x1_0000 == b2 + 0x100 * b3);
        assert(word / 0x100_0000 == b3);
        assert(words_of(blob)[at] == word);
        assert(i == 4 * at + i % 4);
    }
    assert(blob_of(words_of(blob)) =~= blob);
}

/// The bytes that a vector is stored as, given the bits of its components.
pub fn f32_slice_to_blob(v: &[u32]) -> (blob: Vec<u8>)
    ensures
        blob@ == blob_of(v@),
{
    let mut blob: Vec<u8> = Vec::new();
    for i in 0..v.len()
        invariant
            blob@ == blob_of(v@.take(i as int)),
    {
        let word = v[i];
        blob.push((word % 0x100) as u8);
        blob.push((word / 0x100 % 0x100) as u8);
        blob.push((word / 0x1_0000 % 0x100) as u8);
        blob.push((word / 0x100_0000) as u8);
        assert(blob@ =~= blob_of(v@.take(i + 1)));
    }
    assert(v@.take(v@.len() as int) == v@);
    blob
}

/// The bits of the components of a stored vector of length `dim`, where `blob` holds that many.
pub fn blob_to_f32_vec(blob: &[u8], dim: usize) -> (v: Option<Vec<u32>>)
    ensures
        match v {
            Some(words) => blob@.len() == dim * 4 && words@ == words_of(blob@),
            None => blob@.len() != dim * 4,
        },
{
    if blob.len() % 4 != 0 || blob.len() / 4 != dim {
        return None;
    }
    let total: usize = blob.len();
    let mut words: Vec<u32> = Vec::new();
    for i in 0..dim
        invariant
            total == blob@.len(),
            total == dim * 4,
            words@ == words_of(blob@).take(i as int),
    {
        let word: u32 = blob[4 * i] as u32 + 0x100 * blob[4 * i + 1] as u32 + 0x1_0000 * blob[4 * i
            + 2] as u32 + 0x100_0000 * blob[4 * i + 3] as u32;
        words.push(word);
    }
    assert(words_of(blob@).take(dim as int) == words_of(blob@));
    Some(words)
}

/// What adding the embedding of a chunk asks of the store.
pub open spec fn embedding_statement(chunk_id: i64, dim: i64, vec: Seq<u32>) -> StatementView {
    StatementView {
        sql: INSERT_EMBEDDING@,
        params: seq![
            SqlValueView::Integer(chunk_id),
            SqlValueView::Integer(dim),
            SqlValueView::Blob(blob_of(vec)),
        ],
    }
}

/// Adding an embedding binds the chunk's id and the length as they are, and of each component the
/// four bytes of its bits, the lowest first.
pub proof fn embedding_binds_its_chunk_and_vector(chunk_id: i64, dim: i64, vec: Seq<u32>)
    ensures
        ({
            let statement = embedding_statement(chunk_id, dim, vec);
            let bound = statement.params;
            &&& statement.sql == "INSERT INTO embeddings (chunk_id, dim, vec) VALUES (?1, ?2, ?3)"@
            &&& bound.len() == 3
            &&& bound[0] matches SqlValueView::Integer(first) && first == chunk_id
            &&& bound[1] matches SqlValueView::Integer(second) && second == dim
            &&& bound[2] matches SqlValueView::Blob(bytes) && bytes.len() == 4 * vec.len()
                && forall|at: int|
                #![trigger vec[at]]
                0 <= at < vec.len() ==> vec[at] == bytes[4 * at] + 0x100 * bytes[4 * at + 1]
                    + 0x1_0000 * bytes[4 * at + 2] + 0x100_0000 * bytes[4 * at + 3]
        }),
{
    assert forall|at: int|
        #![trigger vec[at]]
        0 <= at < vec.len() implies vec[at] == blob_of(vec)[4 * at] + 0x100 * blob_of(vec)[4 * at
        + 1] + 0x1_0000 * blob_of(vec)[4 * at + 2] + 0x100_0000 * blob_of(vec)[4 * at + 3] by {
        words_are_stored_lowest_byte_first(vec, at);
    }
}

/// The statement that adds the embedding of a chunk, given the bits of its components.
pub fn insert_embedding(chunk_id: i64, dim: usize, vec: &[u32]) -> (statement: Result<
    Statement,
    String,
>)
    ensures
        outcome(statement) == (if dim <= i64::MAX {
            Ok(embedding_statement(chunk_id, dim as i64, vec@))
        } else {
            Err(DIM_TOO_LARGE@)
        }),
{
    if dim as u64 > i64::MAX as u64 {
        return Err(DIM_TOO_LARGE.to_string());
    }
    let mut params: Vec<SqlValue> = Vec::new();
    params.push(SqlValue::Integer(chunk_id));
    params.push(SqlValue::Integer(dim as i64));
    params.push(SqlValue::Blob(f32_slice_to_blob(vec)));
    let statement = Statement { sql: INSERT_EMBEDDING, params };
    assert(statement.deep_view() =~= embedding_statement(chunk_id, dim as i64, vec@));
    Ok(statement)
}

/// One indexed chunk with the bits of its embedding.
#[derive(Clone, Debug)]
pub struct ChunkRow {
    pub path: String,
    pub text: String,
    pub vec: Vec<u32>,
}

/// What an indexed chunk holds.
#[verifier::ext_equal]
pub struct ChunkRowView {
    pub path: Seq<char>,
    pub text: Seq<char>,
    pub vec: Seq<u32>,
}

impl DeepView for ChunkRow {
    type V = ChunkRowView;

    open spec fn deep_view(&self) -> ChunkRowView {
        ChunkRowView { path: self.path@, text: self.text@, vec: self.vec@ }
    }
}

/// A row of [`indexed_query`].
#[derive(Clone, Debug)]
pub struct StoredRow {
    pub path: String,
    pub text: String,
    pub dim: i64,
    pub vec: Vec<u8>,
}

/// What a row of [`indexed_query`] holds.
#[verifier::ext_equal]
pub struct StoredRowView {
    pub path: Seq<char>,
    pub text: Seq<char>,
    pub dim: i64,
    pub vec: Seq<u8>,
}

impl DeepView for StoredRow {
    type V = StoredRowView;

    open spec fn deep_view(&self) -> StoredRowView {
        StoredRowView { path: self.path@, text: self.text@, dim: self.dim, vec: self.vec@ }
    }
}

/// What chunks and rows are seen to hold is what they hold.
pub proof fn rows_are_seen_whole(chunk: ChunkRow, row: StoredRow)
    ensures
        chunk.deep_view().path == chunk.path@,
        chunk.deep_view().text == chunk.text@,
        chunk.deep_view().vec == chunk.vec@,
        row.deep_view().path == row.path@,
        row.deep_view().text == row.text@,
        row.deep_view().dim == row.dim,
        row.deep_view().vec == row.vec@,
{
}

/// Whether a stored length is one.
pub open spec fn valid_dim(dim: i64) -> bool {
    0 <= dim <= usize::MAX
}

/// The chunk that a row holds, if its vector is as long as the row says.
pub open spec fn decoded_row(row: StoredRowView) -> Option<ChunkRowView> {
    if row.vec.len() == row.dim * 4 {
        Some(ChunkRowView { path: row.path, text: row.text, vec: words_of(row.vec) })
    } else {
        None
    }
}

/// The chunks that `rows` hold, in order, without those whose vector is not as long as it says.
pub open spec fn decoded(rows: Seq<StoredRowView>) -> Seq<ChunkRowView>
    decreases rows.len(),
{
    if rows.len() == 0 {
        seq![]
    } else {
        let before = decoded(rows.drop_last());
        match decoded_row(rows.last()) {
            Some(chunk) => before.push(chunk),
            None => before,
        }
    }
}

/// What loading the index gives, from the rows that were read and what ended the reading early.
pub open spec fn loaded(rows: Seq<StoredRowView>, failure: Option<Seq<char>>) -> Result<
    Seq<ChunkRowView>,
    Seq<char>,
> {
    if exists|i: int| 0 <= i < rows.len() && !valid_dim(#[trigger] rows[i].dim) {
        Err(INVALID_DIM@)
    } else if let Some(message) = failure {
        Err(message)
    } else {
        Ok(decoded(rows))
    }
}

/// Rows whose vectors are as long as they say load one to one and in order: each to a chunk with
/// its path, its text and its vector, component by component.
pub proof fn intact_rows_load_one_to_one(rows: Seq<StoredRowView>)
    requires
        forall|i: int|
            0 <= i < rows.len() ==> 0 <= (#[trigger] rows[i]).dim <= usize::MAX
                && rows[i].vec.len() == 4 * rows[i].dim,
    ensures
        loaded(rows, None) matches Ok(chunks) && {
            &&& chunks.len() == rows.len()
            &&& forall|i: int|
                #![trigger chunks[i]]
                0 <= i < rows.len() ==> {
                    &&& chunks[i].path == rows[i].path
                    &&& chunks[i].text == rows[i].text
                    &&& chunks[i].vec.len() == rows[i].dim
                }
            &&& forall|i: int, at: int|
                #![trigger chunks[i].vec[at]]
                0 <= i < rows.len() && 0 <= at < rows[i].dim ==> chunks[i].vec[at]
                    == rows[i].vec[4 * at] + 0x100 * rows[i].vec[4 * at + 1] + 0x1_0000
                    * rows[i].vec[4 * at + 2] + 0x100_0000 * rows[i].vec[4 * at + 3]
        },
    decreases rows.len(),
{
    assert forall|i: int| 0 <= i < rows.len() implies valid_dim(#[trigger] rows[i].dim) by {
        assert(0 <= rows[i].dim);
    }
    if rows.len() > 0 {
        let front = rows.drop_last();
        let last = rows.len() - 1;
        assert forall|i: int| 0 <= i < front.len() implies 0 <= (#[trigger] front[i]).dim
            <= usize::MAX && front[i].vec.len() == 4 * front[i].dim by {
            assert(front[i] == rows[i]);
        }
        intact_rows_load_one_to_one(front);
        let before = decoded(front);
        let chunks = decoded(rows);
        assert(rows.last() == rows[last]);
        assert forall|i: int|
            #![trigger chunks[i]]
            0 <= i < rows.len() implies chunks[i].path == rows[i].path && chunks[i].text
            == rows[i].text && chunks[i].vec.len() == rows[i].dim by {
            if i < last {
                assert(chunks[i] == before[i]);
                assert(front[i] == rows[i]);
            }
        }
        assert forall|i: int, at: int|
            #![trigger chunks[i].vec[at]]
            0 <= i < rows.len() && 0 <= at < rows[i].dim implies chunks[i].vec[at]
            == rows[i].vec[4 * at] + 0x100 * rows[i].vec[4 * at + 1] + 0x1_0000 * rows[i].vec[4 * at
            + 2] + 0x100_0000 * rows[i].vec[4 * at + 3] by {
            if i < last {
                assert(chunks[i] == before[i]);
                assert(front[i] == rows[i]);
                assert(before[i].vec[at] == chunks[i].vec[at]);
            } else {
                words_are_read_lowest_byte_first(rows[i].vec, at);
            }
        }
    }
}

/// Rows whose vectors are not as long as they say are passed over.
pub proof fn misfits_are_passed_over(rows: Seq<StoredRowView>)
    requires
        forall|i: int|
            0 <= i < rows.len() ==> 0 <= (#[trigger] rows[i]).dim <= usize::MAX
                && rows[i].vec.len() != 4 * rows[i].dim,
    ensures
        loaded(rows, None) matches Ok(chunks) && chunks.len() == 0,
    decreases rows.len(),
{
    assert forall|i: int| 0 <= i < rows.len() implies valid_dim(#[trigger] rows[i].dim) by {
        assert(0 <= rows[i].dim);
    }
    if rows.len() > 0 {
        let front = rows.drop_last();
        assert forall|i: int| 0 <= i < front.len() implies 0 <= (#[trigger] front[i]).dim
            <= usize::MAX && front[i].vec.len() != 4 * front[i].dim by {
            assert(front[i] == rows[i]);
        }
        misfits_are_passed_over(front);
        assert(rows.last() == rows[rows.len() - 1]);
    }
}

/// Rows load on their own: what rows and more rows load to is what the first load to and then what
/// the others load to, and they fail to load together where one part fails.
pub proof fn rows_load_on_their_own(front: Seq<StoredRowView>, back: Seq<StoredRowView>)
    ensures
        match (loaded(front, None), loaded(back, None)) {
            (Ok(chunks), Ok(more)) => loaded(front + back, None) == Ok::<_, Seq<char>>(
                chunks + more,
            ),
            _ => loaded(front + back, None) is Err,
        },
{
    let rows = front + back;
    lemma_decoded_adds(front, back);
    if exists|i: int| 0 <= i < front.len() && !valid_dim(#[trigger] front[i].dim) {
        let i = choose|i: int| 0 <= i < front.len() && !valid_dim(#[trigger] front[i].dim);
        assert(rows[i] == front[i]);
        assert(!valid_dim(rows[i].dim));
    } else if exists|i: int| 0 <= i < back.len() && !valid_dim(#[trigger] back[i].dim) {
        let i = choose|i: int| 0 <= i < back.len() && !valid_dim(#[trigger] back[i].dim);
        assert(rows[front.len() + i] == back[i]);
        assert(!valid_dim(rows[front.len() + i].dim));
    } else {
        assert forall|i: int| 0 <= i < rows.len() implies valid_dim(#[trigger] rows[i].dim) by {
            if i < front.len() {
                assert(rows[i] == front[i]);
                assert(valid_dim(front[i].dim));
            } else {
                assert(rows[i] == back[i - front.len()]);
                assert(valid_dim(back[i - front.len()].dim));
            }
        }
    }
}

proof fn lemma_decoded_adds(front: Seq<StoredRowView>, back: Seq<StoredRowView>)
    ensures
        decoded(front + back) == decoded(front) + decoded(back),
    decreases back.len(),
{
    if back.len() == 0 {
        assert(front + back =~= front);
        assert(decoded(front) + decoded(back) =~= decoded(front));
    } else {
        lemma_decoded_adds(front, back.drop_last());
        assert((front + back).drop_last() =~= front + back.drop_last());
        assert((front + back).last() == back.last());
        assert(decoded(front + back) =~= decoded(front) + decoded(back));
    }
}

/// A stored length that is none spoils the load, wherever its row stands and whatever else fails;
/// where there is none, what ended the reading early is told as it is, and without such a failure
/// the load succeeds.
pub proof fn load_fails_for_a_reason(
    rows: Seq<StoredRowView>,
    failure: Option<Seq<char>>,
    message: Seq<char>,
)
    ensures
        loaded(rows, failure) == Err::<Seq<ChunkRowView>, _>(message) <==> {
            let spoiled = exists|i: int|
                0 <= i < rows.len() && !(0 <= (#[trigger] rows[i]).dim <= usize::MAX);
            if spoiled {
                message == "invalid embedding dim in db"@
            } else {
                failure == Some(message)
            }
        },
        loaded(rows, failure) is Ok <==> failure is None && forall|i: int|
            0 <= i < rows.len() ==> 0 <= (#[trigger] rows[i]).dim <= usize::MAX,
{
    if exists|i: int| 0 <= i < rows.len() && !valid_dim(#[trigger] rows[i].dim) {
        let i = choose|i: int| 0 <= i < rows.len() && !valid_dim(#[trigger] rows[i].dim);
        assert(!(0 <= rows[i].dim <= usize::MAX));
    } else {
        assert forall|i: int| 0 <= i < rows.len() implies 0 <= (#[trigger] rows[i]).dim
            <= usize::MAX by {
            assert(valid_dim(rows[i].dim));
        }
    }
}

/// The query for every chunk with its embedding: path, text, length and bytes to a row.
pub fn indexed_query() -> (statement: Statement)
    ensures
        statement.deep_view() == (StatementView { sql: SELECT_INDEXED@, params: seq![] }),
        statement.sql@ == "SELECT c.path, c.text, e.dim, e.vec FROM chunks c
         INNER JOIN embeddings e ON e.chunk_id = c.id"@,
{
    Statement { sql: SELECT_INDEXED, params: Vec::new() }
}

/// The chunks that the rows of [`indexed_query`] hold.
///
/// `rows` are those read before the end or before `failure`, which says why the next could not be
/// read.
pub fn load_all_indexed(rows: Vec<StoredRow>, failure: Option<String>) -> (chunks: Result<
    Vec<ChunkRow>,
    String,
>)
    ensures
        outcome(chunks) == loaded(rows.deep_view(), failure.deep_view()),
{
    let ghost stored = rows.deep_view();
    let mut chunks: Vec<ChunkRow> = Vec::new();
    for row in it: rows
        invariant
            it.seq() == rows@,
            stored == rows.deep_view(),
            forall|i: int| 0 <= i < it.index() ==> valid_dim(#[trigger] stored[i].dim),
            chunks.deep_view() == decoded(stored.take(it.index() as int)),
    {
        let ghost at = it.index() as int;
        assert(stored[at] == row.deep_view());
        assert(stored.take(at + 1).drop_last() == stored.take(at));
        if row.dim < 0 || row.dim as u64 > usize::MAX as u64 {
            assert(!valid_dim(stored[at].dim));
            return Err(INVALID_DIM.to_string());
        }
        let ghost before = chunks.deep_view();
        if let Some(vec) = blob_to_f32_vec(row.vec.as_slice(), row.dim as usize) {
            chunks.push(ChunkRow { path: row.path, text: row.text, vec });
            assert(chunks.deep_view() =~= before.push(chunks@.last().deep_view()));
        }
    }
    assert(stored.take(stored.len() as int) == stored);
    if let Some(message) = failure {
        return Err(message);
    }
    Ok(chunks)
}

/// `chunks` and the one that `row` holds, if it holds one.
pub open spec fn with_row(chunks: Multiset<ChunkRowView>, row: StoredRowView) -> Multiset<
    ChunkRowView,
> {
    match decoded_row(row) {
        Some(chunk) => chunks.insert(chunk),
        None => chunks,
    }
}

/// A row adds its chunk to those that the other rows hold, wherever it stands among them.
proof fn lemma_row_adds_its_chunk(rows: Seq<StoredRowView>, at: int)
    requires
        0 <= at < rows.len(),
    ensures
        decoded(rows).to_multiset() == with_row(decoded(rows.remove(at)).to_multiset(), rows[at]),
    decreases rows.len(),
{
    let front = rows.drop_last();
    if let Some(chunk) = decoded_row(rows.last()) {
        to_multiset_build(decoded(front), chunk);
    }
    if at == rows.len() - 1 {
        assert(rows.remove(at) =~= front);
    } else {
        lemma_row_adds_its_chunk(front, at);
        assert(rows.remove(at).drop_last() =~= front.remove(at));
        if let Some(chunk) = decoded_row(rows.last()) {
            to_multiset_build(decoded(front.remove(at)), chunk);
        }
        assert(decoded(rows).to_multiset() =~= with_row(
            decoded(rows.remove(at)).to_multiset(),
            rows[at],
        ));
    }
}

/// The order in which the store gives its rows decides only the order of the chunks: the same rows
/// in another order load to the same chunks, or fail for the same reason.
pub proof fn rows_load_in_any_order(
    rows: Seq<StoredRowView>,
    other: Seq<StoredRowView>,
    failure: Option<Seq<char>>,
)
    requires
        rows.to_multiset() == other.to_multiset(),
    ensures
        match (loaded(rows, failure), loaded(other, failure)) {
            (Ok(chunks), Ok(others)) => chunks.to_multiset() == others.to_multiset(),
            (Err(message), Err(same)) => message == same,
            _ => false,
        },
{
    if forall|i: int| 0 <= i < rows.len() ==> valid_dim(#[trigger] rows[i].dim) {
        lemma_valid_dims_stay(rows, other);
    }
    if forall|i: int| 0 <= i < other.len() ==> valid_dim(#[trigger] other[i].dim) {
        lemma_valid_dims_stay(other, rows);
    }
    lemma_decoded_in_any_order(rows, other);
}

proof fn lemma_valid_dims_stay(rows: Seq<StoredRowView>, other: Seq<StoredRowView>)
    requires
        rows.to_multiset() == other.to_multiset(),
        forall|i: int| 0 <= i < rows.len() ==> valid_dim(#[trigger] rows[i].dim),
    ensures
        forall|i: int| 0 <= i < other.len() ==> valid_dim(#[trigger] other[i].dim),
{
    assert forall|i: int| 0 <= i < other.len() implies valid_dim(#[trigger] other[i].dim) by {
        to_multiset_contains(other, other[i]);
        to_multiset_contains(rows, other[i]);
        let k = choose|k: int| 0 <= k < rows.len() && rows[k] == other[i];
        assert(valid_dim(rows[k].dim));
    }
}

proof fn lemma_decoded_in_any_order(rows: Seq<StoredRowView>, other: Seq<StoredRowView>)
    requires
        rows.to_multiset() == other.to_multiset(),
    ensures
        decoded(rows).to_multiset() == decoded(other).to_multiset(),
    decreases rows.len(),
{
    to_multiset_len(rows);
    to_multiset_len(other);
    if rows.len() > 0 {
        let last = rows.len() - 1;
        to_multiset_contains(rows, rows[last]);
        to_multiset_contains(other, rows[last]);
        let at = choose|at: int| 0 <= at < other.len() && other[at] == rows[last];
        to_multiset_remove(rows, last);
        to_multiset_remove(other, at);
        lemma_decoded_in_any_order(rows.remove(last), other.remove(at));
        lemma_row_adds_its_chunk(rows, last);
        lemma_row_adds_its_chunk(other, at);
    }
}

/// The row that joins what adding a chunk and adding its embedding bound.
pub open spec fn joined_row(chunk: StatementView, embedding: StatementView) -> StoredRowView {
    StoredRowView {
        path: chunk.params[0]->Text_0,
        text: chunk.params[2]->Text_0,
        dim: embedding.params[1]->Integer_0,
        vec: embedding.params[2]->Blob_0,
    }
}

/// A chunk that is added to an index is loaded besides those that were there, with its vector as it
/// was given, if it is stored with the vector's own length; with another length it is passed over.
///
/// `before` are the rows of the index that the chunk is added to, and `after` the rows then, in
/// whatever order.
pub proof fn added_chunk_is_loaded(
    before: Seq<StoredRowView>,
    after: Seq<StoredRowView>,
    path: Seq<char>,
    ordinal: i32,
    text: Seq<char>,
    id: i64,
    dim: usize,
    vec: Seq<u32>,
)
    requires
        loaded(before, None) is Ok,
        dim <= i64::MAX,
        after.to_multiset() == before.to_multiset().insert(
            joined_row(
                chunk_statement(path, ordinal, text),
                embedding_statement(id, dim as i64, vec),
            ),
        ),
    ensures
        loaded(before, None) matches Ok(chunks) && loaded(after, None) matches Ok(more)
            && more.to_multiset() == if dim == vec.len() {
            chunks.to_multiset().insert(ChunkRowView { path, text, vec })
        } else {
            chunks.to_multiset()
        },
{
    let row = joined_row(
        chunk_statement(path, ordinal, text),
        embedding_statement(id, dim as i64, vec),
    );
    blob_keeps_words(vec);
    to_multiset_contains(after, row);
    let at = choose|at: int| 0 <= at < after.len() && after[at] == row;
    to_multiset_remove(after, at);
    let others = after.remove(at);
    assert(others.to_multiset() =~= before.to_multiset());
    lemma_valid_dims_stay(before, others);
    assert forall|i: int| 0 <= i < after.len() implies valid_dim(#[trigger] after[i].dim) by {
        if i < at {
            assert(after[i] == others[i]);
        } else if i > at {
            assert(after[i] == others[i - 1]);
        }
    }
    lemma_row_adds_its_chunk(after, at);
    lemma_decoded_in_any_order(others, before);
}

/// Chunks read from the rows that their statements wrote are the chunks that were written.
pub proof fn written_chunks_are_loaded(
    chunks: Seq<ChunkRowView>,
    ordinals: Seq<i32>,
    ids: Seq<i64>,
    rows: Seq<StoredRowView>,
)
    requires
        rows.len() == chunks.len(),
        forall|i: int|
            #![trigger chunks[i]]
            0 <= i < chunks.len() ==> chunks[i].vec.len() <= i64::MAX && chunks[i].vec.len()
                <= usize::MAX,
        forall|i: int|
            #![trigger rows[i]]
            0 <= i < chunks.len() ==> rows[i] == joined_row(
                chunk_statement(chunks[i].path, ordinals[i], chunks[i].text),
                embedding_statement(ids[i], chunks[i].vec.len() as i64, chunks[i].vec),
            ),
    ensures
        loaded(rows, None) == Ok::<_, Seq<char>>(chunks),
    decreases chunks.len(),
{
    assert forall|i: int| 0 <= i < rows.len() implies valid_dim(#[trigger] rows[i].dim) by {
        assert(chunks[i].vec.len() <= i64::MAX);
    }
    if chunks.len() == 0 {
        assert(decoded(rows) =~= chunks);
    } else {
        written_chunks_are_loaded(
            chunks.drop_last(),
            ordinals,
            ids,
            rows.drop_last(),
        );
        let last = chunks.last();
        assert(last.vec.len() <= i64::MAX);
        blob_keeps_words(last.vec);
        assert(rows.last() == rows[chunks.len() - 1]);
        assert(decoded(rows) =~= chunks);
    }
}

} // verus!
