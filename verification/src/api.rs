//! Handler logic for the API surface: the request and response shapes, and
//! the decisions each route makes once the transport layer has handed it
//! plain values.

use vstd::prelude::*;

use crate::catalog::{
    book_chapters, book_files, count_book, spec_first_file_id, total_duration, Book, Catalog,
    Chapter, File, FileData,
};
use crate::order::{lex_le, lemma_lex_le_total, lemma_lex_le_trans, str_le};
use crate::password::{argon2_verifies, hash_password};
use crate::progress::{
    entry_idx, has_entry, spec_manage_ok, spec_manage_rows, LibraryEntry, LibraryList,
    LibraryTable,
};
use crate::response::{ApiError, SuccessResponse};
use crate::text::{lower_of, normalize_username, trim_of, trim_str};
use crate::users::UserTable;

verus! {

/// Login request body.
pub struct LoginRequest {
    pub username: String,
    pub password: String,
}

/// User-creation request body.
pub struct CreateUserRequest {
    pub name: String,
    pub password: String,
    pub admin: bool,
}

/// User-update request body; absent fields keep their stored values.
pub struct UpdateUserRequest {
    pub name: Option<String>,
    pub password: Option<String>,
    pub admin: Option<bool>,
}

/// Response body of a book upload.
pub struct UploadBookResponse {
    pub book_id: i64,
}

/// Request body that assigns a book to a library list.
pub struct SetBookList {
    pub list: LibraryList,
    pub file_id: Option<i64>,
    pub progress: Option<u64>,
}

/// Request body of the high-frequency progress write.
pub struct UpdateProgress {
    pub file_id: i64,
    pub progress: u64,
}

/// Assigns a book to a list for the session's user — the library upsert.
pub fn set_book_list(
    table: &mut LibraryTable,
    catalog: &Catalog,
    user_id: i64,
    book_id: i64,
    req: SetBookList,
    now: i64,
) -> (r: Result<SuccessResponse, ApiError>)
    requires
        old(table).wf(),
        catalog.wf(),
        old(table).entries@.len() + 1 <= i64::MAX,
    ensures
        final(table).wf(),
        r is Ok <==> spec_manage_ok(
            old(table).entries@,
            user_id,
            book_id,
            req.file_id,
            spec_first_file_id(catalog.files@, book_id),
        ),
        r is Ok ==> final(table).entries@ == spec_manage_rows(
            old(table).entries@,
            user_id,
            book_id,
            req.list,
            req.file_id,
            req.progress,
            spec_first_file_id(catalog.files@, book_id),
            now,
        ),
        r matches Ok(resp) ==> resp.message@ == "library--list-set"@,
        r is Err ==> final(table).entries@ == old(table).entries@ && (r matches Err(e)
            && e is Internal),
{
    match table.manage_library_entry(
        catalog,
        user_id,
        book_id,
        req.list,
        req.file_id,
        req.progress,
        now,
    ) {
        Ok(()) => Ok(SuccessResponse::new(String::from_str("library--list-set"), None)),
        Err(_) => Err(
            ApiError::Internal(String::from_str("unable to store the library entry")),
        ),
    }
}

/// The playback-time progress write: direct and unconditional for an
/// existing entry, a no-op otherwise; always acknowledged.
pub fn update_progress(
    table: &mut LibraryTable,
    user_id: i64,
    book_id: i64,
    req: UpdateProgress,
    now: i64,
) -> (r: SuccessResponse)
    requires
        old(table).wf(),
    ensures
        final(table).wf(),
        if crate::progress::has_entry(old(table).entries@, user_id, book_id) {
            final(table).entries@ == old(table).entries@.update(
                crate::progress::entry_idx(old(table).entries@, user_id, book_id),
                crate::progress::LibraryEntry {
                    file_id: req.file_id,
                    progress: req.progress,
                    modified: now,
                    ..old(table).entries@[crate::progress::entry_idx(
                        old(table).entries@,
                        user_id,
                        book_id,
                    )]
                },
            )
        } else {
            final(table).entries@ == old(table).entries@
        },
        r.message@ == "library--progress-updated"@,
{
    table.update_progress(user_id, book_id, req.file_id, req.progress, now);
    SuccessResponse::new(String::from_str("library--progress-updated"), None)
}

/// Creates a user (an admin-only route): the name is normalized, the
/// password hashed, and the row stored.  `DataMissing` when the normalized
/// name or the password is empty; `Internal` when hashing fails or the
/// name is taken.
pub fn create_user(users: &mut UserTable, req: &CreateUserRequest, now: i64) -> (r: Result<
    SuccessResponse,
    ApiError,
>)
    requires
        old(users).wf(),
        old(users).users@.len() + 1 <= i64::MAX,
    ensures
        final(users).wf(),
        r is Err ==> final(users).users@ == old(users).users@,
        (lower_of(trim_of(req.name@)).len() == 0 || req.password@.len() == 0) <==> (
        r matches Err(e) && e is DataMissing),
        r matches Ok(resp) ==> {
            &&& resp.message@ == "user-create--success"@
            &&& final(users).users@.len() == old(users).users@.len() + 1
            &&& final(users).users@.subrange(0, old(users).users@.len() as int) == old(
                users,
            ).users@
            &&& final(users).users@.last().name@ == lower_of(trim_of(req.name@))
            &&& final(users).users@.last().admin == req.admin
            &&& final(users).users@.last().password matches Some(h) && argon2_verifies(
                h@,
                req.password@,
            )
        },
        r matches Err(e) && e is Internal ==> final(users).users@ == old(users).users@,
{
    let normalized = normalize_username(req.name.as_str());
    if normalized.as_str().is_empty() || req.password.as_str().is_empty() {
        return Err(ApiError::DataMissing);
    }
    let hash = match hash_password(req.password.as_str()) {
        Ok(h) => h,
        Err(msg) => {
            return Err(ApiError::Internal(msg));
        },
    };
    match users.create_user(normalized.as_str(), hash.as_str(), req.admin, now) {
        Ok(()) => Ok(SuccessResponse::new(String::from_str("user-create--success"), None)),
        Err(_) => Err(ApiError::Internal(String::from_str("user name already taken"))),
    }
}

/// Updates a user: permitted to the user themselves and to admins.  A
/// supplied name is normalized, a supplied password hashed; absent fields
/// keep their stored values.
pub fn update_user(
    users: &mut UserTable,
    session_user_id: i64,
    session_admin: bool,
    target_id: i64,
    req: UpdateUserRequest,
    now: i64,
) -> (r: Result<SuccessResponse, ApiError>)
    requires
        old(users).wf(),
    ensures
        final(users).wf(),
        r is Err ==> final(users).users@ == old(users).users@,
        (session_user_id != target_id && !session_admin) <==> (r matches Err(e) && e is NotAdmin),
        r matches Ok(resp) ==> resp.message@ == "user-edit--success"@,
        r is Ok && !old(users).spec_has_user(target_id) ==> final(users).users@ == old(
            users,
        ).users@,
        r is Ok && old(users).spec_has_user(target_id) ==> {
            let e = old(users).users@[target_id - 1];
            let after = final(users).users@[target_id - 1];
            &&& final(users).users@.len() == old(users).users@.len()
            &&& forall|k: int|
                0 <= k < final(users).users@.len() && k != target_id - 1 ==> (
                #[trigger] final(users).users@[k]) == old(users).users@[k]
            &&& after.name@ == match req.name {
                Some(nm) => lower_of(trim_of(nm@)),
                None => e.name@,
            }
            &&& (req.password matches Some(p) ==> (after.password matches Some(h)
                && argon2_verifies(h@, p@)))
            &&& (req.password is None ==> after.password == e.password)
            &&& after.admin == match req.admin {
                Some(a) => a,
                None => e.admin,
            }
        },
{
    if session_user_id != target_id && !session_admin {
        return Err(ApiError::NotAdmin);
    }
    let name = match &req.name {
        Some(nm) => Some(normalize_username(nm.as_str())),
        None => None,
    };
    let password = match &req.password {
        Some(p) => {
            match hash_password(p.as_str()) {
                Ok(h) => Some(h),
                Err(msg) => {
                    return Err(ApiError::Internal(msg));
                },
            }
        },
        None => None,
    };
    match users.update_user(target_id, name, password, req.admin) {
        Ok(()) => Ok(SuccessResponse::new(String::from_str("user-edit--success"), None)),
        Err(_) => Err(ApiError::Internal(String::from_str("user name already taken"))),
    }
}

/// Everything the book-details route reports: the book with its total
/// duration, its ordered files, the requesting user's library entry if
/// any, and the chapters.
pub struct BookResponse {
    pub book: Book,
    pub files: Vec<File>,
    pub library: Option<LibraryEntry>,
    pub chapters: Vec<Chapter>,
}

/// Assembles the book-details response for the session's user; `NotFound`
/// exactly when the book does not exist.
pub fn get_book_details_response(
    catalog: &Catalog,
    table: &LibraryTable,
    user_id: i64,
    book_id: i64,
) -> (r: Result<BookResponse, ApiError>)
    requires
        catalog.wf(),
        table.wf(),
    ensures
        r is Ok <==> catalog.spec_has_book(book_id),
        r matches Err(e) ==> e is NotFound,
        r matches Ok(b) ==> {
            &&& b.book.id == book_id
            &&& b.book.title == catalog.spec_book(book_id).title
            &&& b.book.author == catalog.spec_book(book_id).author
            &&& b.book.duration == if count_book(catalog.files@, book_id) == 0 {
                Option::<u128>::None
            } else {
                Option::Some(total_duration(catalog.files@, book_id) as u128)
            }
            &&& b.files@ == book_files(catalog.files@, book_id)
            &&& (b.library matches Some(e) ==> has_entry(table.entries@, user_id, book_id)
                && e == table.entries@[entry_idx(table.entries@, user_id, book_id)])
            &&& (b.library is None ==> !has_entry(table.entries@, user_id, book_id))
            &&& b.chapters@.to_multiset() == book_chapters(catalog.chapters@, book_id).to_multiset()
        },
{
    let book = match catalog.get_book_details(book_id) {
        Some(b) => b,
        None => {
            return Err(ApiError::NotFound);
        },
    };
    let files = catalog.get_files_for_book(book_id);
    let chapters = catalog.get_chapters_for_book(book_id);
    let library = table.get_library_entry(user_id, book_id);
    Ok(BookResponse { book, files, library, chapters })
}

/// The path the streamer serves an audio file from; `InvalidPath` for a
/// file id the catalog does not know.
pub fn audio_file_path(catalog: &Catalog, file_id: i64) -> (r: Result<String, ApiError>)
    requires
        catalog.wf(),
    ensures
        r is Ok <==> catalog.spec_has_file(file_id),
        r matches Ok(p) ==> p == catalog.spec_file(file_id).path,
        r matches Err(e) ==> e is InvalidPath,
{
    match catalog.get_file_path(file_id) {
        Some(p) => Ok(p),
        None => Err(ApiError::InvalidPath),
    }
}

/// Validates an upload: the trimmed title and author and the file list
/// must all be non-empty.
pub fn check_upload(title: &str, author: &str, n_files: usize) -> (r: Result<(), ApiError>)
    ensures
        r is Ok <==> (trim_of(title@).len() != 0 && trim_of(author@).len() != 0 && n_files != 0),
        r matches Err(e) ==> e is UploadMissingData,
{
    let t = trim_str(title);
    let a = trim_str(author);
    if t.is_empty() || a.is_empty() || n_files == 0 {
        Err(ApiError::UploadMissingData)
    } else {
        Ok(())
    }
}

/// Orders an upload's files by display name, as positions are assigned
/// alphabetically.
pub fn sort_files_by_name(input: Vec<FileData>) -> (r: Vec<FileData>)
    ensures
        r@.to_multiset() == input@.to_multiset(),
        r@.len() == input@.len(),
        forall|a: int, c: int|
            0 <= a < c < r@.len() ==> lex_le(#[trigger] r@[a].name@, #[trigger] r@[c].name@),
{
    broadcast use vstd::seq_lib::group_to_multiset_ensures;

    let n = input.len();
    let mut out: Vec<FileData> = Vec::new();
    let mut i: usize = 0;
    while i < n
        invariant
            i <= n == input@.len(),
            out@.len() == i,
            out@.to_multiset() == input@.subrange(0, i as int).to_multiset(),
            forall|a: int, c: int|
                0 <= a < c < out@.len() ==> lex_le(
                    #[trigger] out@[a].name@,
                    #[trigger] out@[c].name@,
                ),
        decreases n - i,
    {
        broadcast use vstd::seq_lib::group_to_multiset_ensures;

        let ghost out1 = out@;
        let e = input[i].clone();
        let mut pos: usize = 0;
        while pos < out.len() && !str_le(e.name.as_str(), out[pos].name.as_str())
            invariant
                pos <= out@.len(),
                out@ == out1,
                e == input@[i as int],
                forall|k: int| 0 <= k < pos ==> !lex_le(e.name@, #[trigger] out@[k].name@),
            decreases out@.len() - pos,
        {
            pos = pos + 1;
        }
        out.insert(pos, e);
        proof {
            assert(input@.subrange(0, i + 1) =~= input@.subrange(0, i as int).push(
                input@[i as int],
            ));
            assert(out@.to_multiset() == input@.subrange(0, i + 1).to_multiset());
            assert forall|a: int, c: int| 0 <= a < c < out@.len() implies lex_le(
                #[trigger] out@[a].name@,
                #[trigger] out@[c].name@,
            ) by {
                let p = pos as int;
                let x = input@[i as int];
                if a < p && c < p {
                    assert(out@[a] == out1[a] && out@[c] == out1[c]);
                    assert(lex_le(out1[a].name@, out1[c].name@));
                } else if a < p && c == p {
                    assert(out@[a] == out1[a] && out@[c] == x);
                    assert(!lex_le(x.name@, out1[a].name@));
                    lemma_lex_le_total(x.name@, out1[a].name@);
                } else if a < p && c > p {
                    assert(out@[a] == out1[a] && out@[c] == out1[c - 1]);
                    assert(a <= c - 1 < out1.len());
                    if a < c - 1 {
                        assert(lex_le(out1[a].name@, out1[c - 1].name@));
                    }
                } else if a == p {
                    assert(out@[a] == x && out@[c] == out1[c - 1]);
                    assert(p < out1.len());
                    assert(lex_le(x.name@, out1[p].name@));
                    if c - 1 > p {
                        assert(lex_le(out1[p].name@, out1[c - 1].name@));
                        lemma_lex_le_trans(x.name@, out1[p].name@, out1[c - 1].name@);
                    }
                } else {
                    assert(out@[a] == out1[a - 1] && out@[c] == out1[c - 1]);
                    assert(p < a - 1 || p == a - 1);
                    assert(a - 1 < c - 1);
                    assert(lex_le(out1[a - 1].name@, out1[c - 1].name@));
                }
            }
        }
        i = i + 1;
    }
    proof {
        assert(input@.subrange(0, n as int) =~= input@);
        assert(out@.len() == out@.to_multiset().len());
        assert(input@.len() == input@.to_multiset().len());
    }
    out
}

} // verus!
