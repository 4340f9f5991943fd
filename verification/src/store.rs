//! The statements the history database runs: SQL text with its parameters,
//! including the keyword search that combines full-text and substring matching.
use vstd::prelude::*;
use crate::monitor::{hash_text, EmbeddingJob};
use crate::capture::content_hash;
use vstd::string::StringSliceAdditionalSpecFns;
use crate::text::{chars_of, string_from_chars, extend_chars, extend_str, trim_chars, replace_char_vec, replace_char, trim_ws};

verus! {

/// A parameter bound to a statement.
pub enum SqlValue {
    Null,
    Integer(i64),
    Text(String),
    Blob(Vec<u8>),
}

/// The plain form of a parameter.
pub enum SqlParam {
    Null,
    Integer(i64),
    Text(Seq<char>),
    Blob(Seq<u8>),
}

/// The plain form of a parameter value.
pub open spec fn param_view(v: SqlValue) -> SqlParam {
    match v {
        SqlValue::Null => SqlParam::Null,
        SqlValue::Integer(i) => SqlParam::Integer(i),
        SqlValue::Text(s) => SqlParam::Text(s@),
        SqlValue::Blob(b) => SqlParam::Blob(b@),
    }
}

/// A statement: SQL text with positional parameters.
pub struct Statement {
    pub sql: String,
    pub params: Vec<SqlValue>,
}

/// The plain form of a statement's parameters.
pub open spec fn params_view(p: Seq<SqlValue>) -> Seq<SqlParam> {
    p.map_values(|v: SqlValue| param_view(v))
}

/// The text parameter, or `NULL` for `None`.
pub open spec fn opt_text(s: Option<Seq<char>>) -> SqlParam {
    match s {
        Some(t) => SqlParam::Text(t),
        None => SqlParam::Null,
    }
}

pub const UPSERT_ITEM_SQL: &'static str = "INSERT INTO clipboard (content, type, content_hash, mtime, source_app) 
         VALUES (?1, ?2, ?3, ?4, ?5)
         ON CONFLICT(content_hash) DO UPDATE SET timestamp = CURRENT_TIMESTAMP, mtime = ?4, source_app = ?5
         RETURNING id";

pub const UPDATE_CONTENT_TEXT_SQL: &'static str = "UPDATE clipboard SET content_text = ?1 WHERE content = ?2";

pub const DELETE_VECTOR_SQL: &'static str = "DELETE FROM clipboard_vec WHERE id = ?1";

pub const INSERT_VECTOR_SQL: &'static str = "INSERT INTO clipboard_vec(id, embedding) VALUES (?1, ?2)";

pub const CLEAR_CONTENT_TEXT_SQL: &'static str = "UPDATE clipboard SET content_text = NULL WHERE id = ?1";

pub const DELETE_ALL_VECTORS_SQL: &'static str = "DELETE FROM clipboard_vec";

pub const DELETE_ALL_ITEMS_SQL: &'static str = "DELETE FROM clipboard";

pub const ID_BY_HASH_SQL: &'static str = "SELECT id FROM clipboard WHERE content_hash = ?1";

pub const ITEM_BY_HASH_SQL: &'static str = "SELECT id, content, type, content_text, timestamp, 
         (SELECT 1 FROM clipboard_vec WHERE id = clipboard.id) as has_vec,
         mtime, source_app, is_favorite
         FROM clipboard WHERE content_hash = ?1";

pub const PATH_BY_HASH_SQL: &'static str = "SELECT content FROM clipboard WHERE content_hash = ?1 AND type = 'image'";

pub const ITEM_BY_ID_SQL: &'static str = "SELECT id, content, type, content_text, timestamp,
         (SELECT 1 FROM clipboard_vec WHERE id = clipboard.id) as has_vec,
         mtime, source_app, is_favorite
         FROM clipboard WHERE id = ?1";

pub const HISTORY_SELECT_SQL: &'static str = "SELECT id, content, type, content_text, timestamp,
         (SELECT 1 FROM clipboard_vec WHERE id = clipboard.id) as has_vec,
         mtime, source_app, is_favorite
         FROM clipboard WHERE 1=1";

pub const HISTORY_MATCH_SQL: &'static str = " AND (
                id IN (SELECT rowid FROM clipboard_fts WHERE clipboard_fts MATCH ?) 
                OR content LIKE ? 
                OR content_text LIKE ?
            )";

pub const HISTORY_FAVORITE_SQL: &'static str = " AND is_favorite = ?";

pub const HISTORY_BEFORE_SQL: &'static str = " AND timestamp < ?";

pub const HISTORY_ORDER_SQL: &'static str = " ORDER BY timestamp DESC LIMIT ?";

pub const SEMANTIC_SQL: &'static str = "SELECT 
            c.id, c.content, c.type, c.content_text, c.timestamp, 
            1 as has_vec, c.mtime, c.source_app, c.is_favorite, v.distance
         FROM clipboard c
         JOIN clipboard_vec v ON c.id = v.id
         WHERE v.embedding MATCH ?1 AND v.k = ?2";

pub const SEMANTIC_FAVORITE_SQL: &'static str = " AND c.is_favorite = ?3";

pub const SEMANTIC_ORDER_SQL: &'static str = " ORDER BY v.distance ASC";

pub const SET_FAVORITE_SQL: &'static str = "UPDATE clipboard SET is_favorite = ?1 WHERE id = ?2";

pub const UNFAVORITE_ALL_SQL: &'static str = "UPDATE clipboard SET is_favorite = 0 WHERE is_favorite != 0";

pub const DELETE_ITEM_SQL: &'static str = "DELETE FROM clipboard WHERE id = ?1";

pub const OVERWRITE_TEXT_SQL: &'static str = "UPDATE clipboard SET content = ?1, content_hash = ?2 WHERE id = ?3 AND type = 'text'";

pub const CLEARABLE_IMAGES_SQL: &'static str = "SELECT content FROM clipboard WHERE type = 'image' AND is_favorite = ?1";

pub const CLEAR_SECTION_VECTORS_SQL: &'static str = "DELETE FROM clipboard_vec WHERE id IN (SELECT id FROM clipboard WHERE is_favorite = ?1)";

pub const CLEAR_SECTION_ITEMS_SQL: &'static str = "DELETE FROM clipboard WHERE is_favorite = ?1";

pub const FTS_MISSING_SQL: &'static str = "SELECT COUNT(*) FROM clipboard WHERE id NOT IN (SELECT rowid FROM clipboard_fts) LIMIT 1";

pub const FTS_SYNC_SQL: &'static str = "INSERT INTO clipboard_fts(rowid, content, content_text) SELECT id, content, content_text FROM clipboard";

pub const EMBEDDING_CANDIDATES_SQL: &'static str = "SELECT id, content, mtime, 
                     (SELECT 1 FROM clipboard_vec WHERE id = clipboard.id) as has_vec 
                     FROM clipboard 
                     WHERE (type = 'image' OR (type = 'file' AND (
                        content LIKE '%.png' OR content LIKE '%.jpg' OR content LIKE '%.jpeg' OR 
                        content LIKE '%.gif' OR content LIKE '%.webp' OR content LIKE '%.bmp' OR 
                        content LIKE '%.heic' OR content LIKE '%.heif'
                     )))
                     ORDER BY timestamp DESC";

pub const UPDATE_MTIME_SQL: &'static str = "UPDATE clipboard SET mtime = ?1 WHERE id = ?2";

fn owned(s: &str) -> (r: String)
    ensures
        r@ == s@,
{
    string_from_chars(chars_of(s).as_slice())
}

fn opt_owned(s: Option<&str>) -> (r: SqlValue)
    ensures
        param_view(r) == opt_text(match s {
            Some(t) => Some(t@),
            None => None,
        }),
{
    match s {
        Some(t) => SqlValue::Text(owned(t)),
        None => SqlValue::Null,
    }
}

/// Records an item, or, when its hash is known, refreshes the existing
/// record's timestamp, modification time and source application; yields the id.
pub fn upsert_item_statement(content: &str, item_type: &str, hash: &str, mtime: i64, source_app: Option<&str>) -> (s: Statement)
    ensures
        s.sql@ == UPSERT_ITEM_SQL@,
        params_view(s.params@) == seq![
            SqlParam::Text(content@),
            SqlParam::Text(item_type@),
            SqlParam::Text(hash@),
            SqlParam::Integer(mtime),
            opt_text(match source_app { Some(t) => Some(t@), None => None }),
        ],
{
    let params = vec![
        SqlValue::Text(owned(content)),
        SqlValue::Text(owned(item_type)),
        SqlValue::Text(owned(hash)),
        SqlValue::Integer(mtime),
        opt_owned(source_app),
    ];
    let s = Statement { sql: owned(UPSERT_ITEM_SQL), params };
    assert(params_view(s.params@) =~= seq![
        SqlParam::Text(content@),
        SqlParam::Text(item_type@),
        SqlParam::Text(hash@),
        SqlParam::Integer(mtime),
        opt_text(match source_app { Some(t) => Some(t@), None => None }),
    ]);
    s
}

/// Stores the extracted text of every item whose content is `content`.
pub fn update_content_text_statement(content: &str, text: &str) -> (s: Statement)
    ensures
        s.sql@ == UPDATE_CONTENT_TEXT_SQL@,
        params_view(s.params@) == seq![SqlParam::Text(text@), SqlParam::Text(content@)],
{
    let s = Statement { sql: owned(UPDATE_CONTENT_TEXT_SQL), params: vec![SqlValue::Text(owned(text)), SqlValue::Text(owned(content))] };
    assert(params_view(s.params@) =~= seq![SqlParam::Text(text@), SqlParam::Text(content@)]);
    s
}

/// Replaces the embedding of item `id`: delete the old vector, insert the new one.
pub fn upsert_vector_statements(id: i64, embedding_blob: Vec<u8>) -> (s: (Statement, Statement))
    ensures
        s.0.sql@ == DELETE_VECTOR_SQL@,
        params_view(s.0.params@) == seq![SqlParam::Integer(id)],
        s.1.sql@ == INSERT_VECTOR_SQL@,
        params_view(s.1.params@) == seq![SqlParam::Integer(id), SqlParam::Blob(embedding_blob@)],
{
    let d = delete_vector_statement(id);
    let ghost b = embedding_blob@;
    let i = Statement { sql: owned(INSERT_VECTOR_SQL), params: vec![SqlValue::Integer(id), SqlValue::Blob(embedding_blob)] };
    assert(params_view(i.params@) =~= seq![SqlParam::Integer(id), SqlParam::Blob(b)]);
    (d, i)
}

/// Deletes the embedding of item `id`.
pub fn delete_vector_statement(id: i64) -> (s: Statement)
    ensures
        s.sql@ == DELETE_VECTOR_SQL@,
        params_view(s.params@) == seq![SqlParam::Integer(id)],
{
    let s = Statement { sql: owned(DELETE_VECTOR_SQL), params: vec![SqlValue::Integer(id)] };
    assert(params_view(s.params@) =~= seq![SqlParam::Integer(id)]);
    s
}

/// Forgets the extracted text of item `id`.
pub fn clear_content_text_statement(id: i64) -> (s: Statement)
    ensures
        s.sql@ == CLEAR_CONTENT_TEXT_SQL@,
        params_view(s.params@) == seq![SqlParam::Integer(id)],
{
    let s = Statement { sql: owned(CLEAR_CONTENT_TEXT_SQL), params: vec![SqlValue::Integer(id)] };
    assert(params_view(s.params@) =~= seq![SqlParam::Integer(id)]);
    s
}

/// Deletes every embedding, then every item.
pub fn clear_all_history_statements() -> (s: (Statement, Statement))
    ensures
        s.0.sql@ == DELETE_ALL_VECTORS_SQL@,
        s.0.params@.len() == 0,
        s.1.sql@ == DELETE_ALL_ITEMS_SQL@,
        s.1.params@.len() == 0,
{
    (Statement { sql: owned(DELETE_ALL_VECTORS_SQL), params: Vec::new() }, Statement { sql: owned(DELETE_ALL_ITEMS_SQL), params: Vec::new() })
}

/// A statement with one text parameter.
fn with_text(sql: &str, t: &str) -> (s: Statement)
    ensures
        s.sql@ == sql@,
        params_view(s.params@) == seq![SqlParam::Text(t@)],
{
    let s = Statement { sql: owned(sql), params: vec![SqlValue::Text(owned(t))] };
    assert(params_view(s.params@) =~= seq![SqlParam::Text(t@)]);
    s
}

/// Looks up the id of the item with hash `hash`.
pub fn id_by_hash_statement(hash: &str) -> (s: Statement)
    ensures
        s.sql@ == ID_BY_HASH_SQL@,
        params_view(s.params@) == seq![SqlParam::Text(hash@)],
{
    with_text(ID_BY_HASH_SQL, hash)
}

/// Looks up the item with hash `hash`.
pub fn item_by_hash_statement(hash: &str) -> (s: Statement)
    ensures
        s.sql@ == ITEM_BY_HASH_SQL@,
        params_view(s.params@) == seq![SqlParam::Text(hash@)],
{
    with_text(ITEM_BY_HASH_SQL, hash)
}

/// Looks up the stored path of the image with hash `hash`.
pub fn path_by_hash_statement(hash: &str) -> (s: Statement)
    ensures
        s.sql@ == PATH_BY_HASH_SQL@,
        params_view(s.params@) == seq![SqlParam::Text(hash@)],
{
    with_text(PATH_BY_HASH_SQL, hash)
}

/// Looks up item `id`.
pub fn item_by_id_statement(id: i64) -> (s: Statement)
    ensures
        s.sql@ == ITEM_BY_ID_SQL@,
        params_view(s.params@) == seq![SqlParam::Integer(id)],
{
    let s = Statement { sql: owned(ITEM_BY_ID_SQL), params: vec![SqlValue::Integer(id)] };
    assert(params_view(s.params@) =~= seq![SqlParam::Integer(id)]);
    s
}

/// Records the modification time of an item whose embedding was just stored.
pub fn update_mtime_statement(mtime: i64, id: i64) -> (s: Statement)
    ensures
        s.sql@ == UPDATE_MTIME_SQL@,
        params_view(s.params@) == seq![SqlParam::Integer(mtime), SqlParam::Integer(id)],
{
    let s = Statement { sql: owned(UPDATE_MTIME_SQL), params: vec![SqlValue::Integer(mtime), SqlValue::Integer(id)] };
    assert(params_view(s.params@) =~= seq![SqlParam::Integer(mtime), SqlParam::Integer(id)]);
    s
}

/// The full-text pattern for a search: the query with its double quotes
/// turned into spaces and surrounding whitespace removed, as one quoted
/// phrase matched as a prefix.
pub open spec fn fts_pattern(q: Seq<char>) -> Seq<char> {
    "\""@ + trim_ws(replace_char(q, '"', ' ')) + "\"*"@
}

/// The substring pattern for a search: the query between `%` wildcards.
pub open spec fn like_pattern(q: Seq<char>) -> Seq<char> {
    "%"@ + q + "%"@
}

/// The SQL of a history page.
pub open spec fn history_sql(searching: bool, filtered: bool, before: bool) -> Seq<char> {
    HISTORY_SELECT_SQL@ + (if searching { HISTORY_MATCH_SQL@ } else { Seq::empty() }) + (if filtered {
        HISTORY_FAVORITE_SQL@
    } else {
        Seq::empty()
    }) + (if before { HISTORY_BEFORE_SQL@ } else { Seq::empty() }) + HISTORY_ORDER_SQL@
}

/// The integer a favourite flag is stored as.
pub open spec fn flag(b: bool) -> i64 {
    if b {
        1
    } else {
        0
    }
}

/// The parameters of a history page.
pub open spec fn history_params(last_timestamp: Option<Seq<char>>, limit: usize, query: Option<Seq<char>>, favorites: Option<bool>) -> Seq<SqlParam> {
    (match query {
        Some(q) => if q.len() > 0 {
            seq![SqlParam::Text(fts_pattern(q)), SqlParam::Text(like_pattern(q)), SqlParam::Text(like_pattern(q))]
        } else {
            seq![]
        },
        None => seq![],
    }) + (match favorites {
        Some(f) => seq![SqlParam::Integer(flag(f))],
        None => seq![],
    }) + (match last_timestamp {
        Some(t) => seq![SqlParam::Text(t)],
        None => seq![],
    }) + seq![SqlParam::Integer(limit as i64)]
}

/// The view of an optional string.
pub open spec fn opt_view(o: Option<String>) -> Option<Seq<char>> {
    match o {
        Some(s) => Some(s@),
        None => None,
    }
}

/// Builds the query for one page of history, newest first: at most `limit`
/// items, older than `last_timestamp` when given, only favourites (or only the
/// others) when `favorites` says so, and, for a non-empty search text, only
/// items that match it in the full-text index or contain it in their content
/// or extracted text.
pub fn history_statement(last_timestamp: Option<String>, limit: usize, query: Option<String>, favorites: Option<bool>) -> (s: Statement)
    ensures
        s.sql@ == history_sql(
            match query { Some(q) => q@.len() > 0, None => false },
            favorites is Some,
            last_timestamp is Some,
        ),
        params_view(s.params@) == history_params(opt_view(last_timestamp), limit, opt_view(query), favorites),
{
    let ghost lt = opt_view(last_timestamp);
    let ghost qv = opt_view(query);
    let mut sql: Vec<char> = chars_of(HISTORY_SELECT_SQL);
    let mut params: Vec<SqlValue> = Vec::new();
    let mut searching = false;
    match query {
        Some(q) => {
            let qc = chars_of(q.as_str());
            if qc.len() > 0 {
                searching = true;
                extend_str(&mut sql, HISTORY_MATCH_SQL);
                let replaced = replace_char_vec(qc.as_slice(), '"', ' ');
                let trimmed = trim_chars(replaced.as_slice());
                let mut fts: Vec<char> = chars_of("\"");
                extend_chars(&mut fts, trimmed.as_slice());
                extend_str(&mut fts, "\"*");
                let mut like: Vec<char> = chars_of("%");
                extend_chars(&mut like, qc.as_slice());
                extend_str(&mut like, "%");
                params.push(SqlValue::Text(string_from_chars(fts.as_slice())));
                params.push(SqlValue::Text(string_from_chars(like.as_slice())));
                params.push(SqlValue::Text(string_from_chars(like.as_slice())));
            }
        },
        None => {},
    }
    let filtered = favorites.is_some();
    match favorites {
        Some(f) => {
            extend_str(&mut sql, HISTORY_FAVORITE_SQL);
            params.push(SqlValue::Integer(if f { 1 } else { 0 }));
        },
        None => {},
    }
    let before = last_timestamp.is_some();
    match last_timestamp {
        Some(ts) => {
            extend_str(&mut sql, HISTORY_BEFORE_SQL);
            params.push(SqlValue::Text(ts));
        },
        None => {},
    }
    extend_str(&mut sql, HISTORY_ORDER_SQL);
    params.push(SqlValue::Integer(limit as i64));
    let s = Statement { sql: string_from_chars(sql.as_slice()), params };
    assert(params_view(s.params@) =~= history_params(lt, limit, qv, favorites));
    assert(s.sql@ =~= history_sql(searching, filtered, before));
    s
}

/// The SQL of a nearest-neighbour query.
pub open spec fn semantic_sql(filtered: bool) -> Seq<char> {
    SEMANTIC_SQL@ + (if filtered { SEMANTIC_FAVORITE_SQL@ } else { Seq::empty() }) + SEMANTIC_ORDER_SQL@
}

/// The nearest-neighbour query over stored embeddings: the `limit` nearest
/// items to the given embedding (raw little-endian `f32` bytes), nearest first,
/// kept to the favourites (or to the others) when `favorites` says so.
pub fn semantic_statement(embedding_blob: Vec<u8>, limit: usize, favorites: Option<bool>) -> (s: Statement)
    ensures
        s.sql@ == semantic_sql(favorites is Some),
        params_view(s.params@) == seq![SqlParam::Blob(embedding_blob@), SqlParam::Integer(limit as i64)] + match favorites {
            Some(f) => seq![SqlParam::Integer(flag(f))],
            None => Seq::<SqlParam>::empty(),
        },
{
    let ghost b = embedding_blob@;
    let mut sql = chars_of(SEMANTIC_SQL);
    let mut params = vec![SqlValue::Blob(embedding_blob), SqlValue::Integer(limit as i64)];
    assert(params_view(params@) =~= seq![SqlParam::Blob(b), SqlParam::Integer(limit as i64)]);
    match favorites {
        Some(f) => {
            extend_str(&mut sql, SEMANTIC_FAVORITE_SQL);
            let ghost before = params_view(params@);
            params.push(SqlValue::Integer(if f { 1 } else { 0 }));
            assert(params_view(params@) =~= before.push(SqlParam::Integer(flag(f))));
        },
        None => {},
    }
    extend_str(&mut sql, SEMANTIC_ORDER_SQL);
    let s = Statement { sql: string_from_chars(sql.as_slice()), params };
    assert(params_view(s.params@) =~= seq![SqlParam::Blob(b), SqlParam::Integer(limit as i64)] + match favorites {
        Some(f) => seq![SqlParam::Integer(flag(f))],
        None => Seq::<SqlParam>::empty(),
    });
    assert(s.sql@ =~= semantic_sql(favorites is Some));
    s
}

/// Marks item `id` as a favourite, or as no longer one.
pub fn set_favorite_statement(id: i64, is_favorite: bool) -> (s: Statement)
    ensures
        s.sql@ == SET_FAVORITE_SQL@,
        params_view(s.params@) == seq![SqlParam::Integer(flag(is_favorite)), SqlParam::Integer(id)],
{
    let s = Statement {
        sql: owned(SET_FAVORITE_SQL),
        params: vec![SqlValue::Integer(if is_favorite { 1 } else { 0 }), SqlValue::Integer(id)],
    };
    assert(params_view(s.params@) =~= seq![SqlParam::Integer(flag(is_favorite)), SqlParam::Integer(id)]);
    s
}

/// Takes every item out of the favourites.
pub fn unfavorite_all_statement() -> (s: Statement)
    ensures
        s.sql@ == UNFAVORITE_ALL_SQL@,
        s.params@.len() == 0,
{
    Statement { sql: owned(UNFAVORITE_ALL_SQL), params: Vec::new() }
}

/// Deletes item `id`: its embedding, then the item.
pub fn delete_item_statements(id: i64) -> (s: (Statement, Statement))
    ensures
        s.0.sql@ == DELETE_VECTOR_SQL@,
        params_view(s.0.params@) == seq![SqlParam::Integer(id)],
        s.1.sql@ == DELETE_ITEM_SQL@,
        params_view(s.1.params@) == seq![SqlParam::Integer(id)],
{
    let d = delete_vector_statement(id);
    let s = Statement { sql: owned(DELETE_ITEM_SQL), params: vec![SqlValue::Integer(id)] };
    assert(params_view(s.params@) =~= seq![SqlParam::Integer(id)]);
    (d, s)
}

/// Replaces the text of text item `id` by `content`, with its new hash; empty
/// content is refused.
pub fn overwrite_text_statement(id: i64, content: &str) -> (r: Result<Statement, String>)
    ensures
        content@.len() == 0 <==> r is Err,
        r matches Err(e) ==> e@ == "Content is empty"@,
        r matches Ok(s) ==> s.sql@ == OVERWRITE_TEXT_SQL@ && params_view(s.params@) == seq![
            SqlParam::Text(content@),
            SqlParam::Text(content_hash(content.spec_bytes())),
            SqlParam::Integer(id),
        ],
{
    match crate::history::require_content(content) {
        Err(e) => Err(e),
        Ok(()) => {
            let hash = hash_text(content);
            let ghost h = hash@;
            let s = Statement {
                sql: owned(OVERWRITE_TEXT_SQL),
                params: vec![SqlValue::Text(owned(content)), SqlValue::Text(hash), SqlValue::Integer(id)],
            };
            assert(params_view(s.params@) =~= seq![
                SqlParam::Text(content@),
                SqlParam::Text(h),
                SqlParam::Integer(id),
            ]);
            Ok(s)
        },
    }
}

/// The paths of the images in one section of the history: the favourites when
/// `favorites_only`, otherwise the other items.
pub fn clearable_images_statement(favorites_only: bool) -> (s: Statement)
    ensures
        s.sql@ == CLEARABLE_IMAGES_SQL@,
        params_view(s.params@) == seq![SqlParam::Integer(flag(favorites_only))],
{
    let s = Statement { sql: owned(CLEARABLE_IMAGES_SQL), params: vec![SqlValue::Integer(if favorites_only { 1 } else { 0 })] };
    assert(params_view(s.params@) =~= seq![SqlParam::Integer(flag(favorites_only))]);
    s
}

/// Clears one section of the history: the favourites when `favorites_only`,
/// otherwise every item that is not a favourite.  Their embeddings go first,
/// then the items; the other section is left as it is.
pub fn clear_history_statements(favorites_only: bool) -> (s: (Statement, Statement))
    ensures
        s.0.sql@ == CLEAR_SECTION_VECTORS_SQL@,
        params_view(s.0.params@) == seq![SqlParam::Integer(flag(favorites_only))],
        s.1.sql@ == CLEAR_SECTION_ITEMS_SQL@,
        params_view(s.1.params@) == seq![SqlParam::Integer(flag(favorites_only))],
{
    let f: i64 = if favorites_only { 1 } else { 0 };
    let v = Statement { sql: owned(CLEAR_SECTION_VECTORS_SQL), params: vec![SqlValue::Integer(f)] };
    let i = Statement { sql: owned(CLEAR_SECTION_ITEMS_SQL), params: vec![SqlValue::Integer(f)] };
    assert(params_view(v.params@) =~= seq![SqlParam::Integer(flag(favorites_only))]);
    assert(params_view(i.params@) =~= seq![SqlParam::Integer(flag(favorites_only))]);
    (v, i)
}


/// What is written when an embedding job succeeds: the item's old vector is
/// deleted, the new one inserted, and the file time the embedding was computed
/// from recorded with the item, so the item is not selected again until the
/// file changes.
pub fn embedding_write_back_statements(job: &EmbeddingJob, embedding_blob: Vec<u8>) -> (s: (Statement, Statement, Statement))
    ensures
        s.0.sql@ == DELETE_VECTOR_SQL@,
        params_view(s.0.params@) == seq![SqlParam::Integer(job.id)],
        s.1.sql@ == INSERT_VECTOR_SQL@,
        params_view(s.1.params@) == seq![SqlParam::Integer(job.id), SqlParam::Blob(embedding_blob@)],
        s.2.sql@ == UPDATE_MTIME_SQL@,
        params_view(s.2.params@) == seq![SqlParam::Integer(job.disk_mtime), SqlParam::Integer(job.id)],
{
    let (d, i) = upsert_vector_statements(job.id, embedding_blob);
    let m = update_mtime_statement(job.disk_mtime, job.id);
    (d, i, m)
}
} // verus!
