//! What the request layer asks of the library and what it gets back.

use vstd::prelude::*;
use vstd::string::*;
use crate::filename::{hinted_filename_spec, is_generated_name, resolve_filename};
use crate::outside::uuid_text;
use crate::record::DownloadRecord;
use crate::scheduler::Submission;
use crate::settings::{
    candidate, find_type, id_from_name, resolve_type, type_id_base, type_ids, FileTypeConfig,
    FileTypeEntry, Settings, GENERAL,
};
use crate::text::{chars_of, lemma_remove_to_set, str_eq, strip_start};

verus! {

/// Request to add a new download
#[derive(Debug)]
pub struct AddDownloadRequest {
    pub url: String,
    pub file_type: String,
    pub filename: Option<String>,
}

/// Response after adding a download
#[derive(Debug)]
pub struct AddDownloadResponse {
    pub id: String,
    pub queued: bool,
}

/// Settings response (excluding sensitive data)
#[derive(Debug, Clone, Copy, PartialEq, Eq, Structural)]
pub struct SettingsResponse {
    pub server_port: u16,
    pub max_concurrent_downloads: usize,
    pub start_on_login: bool,
}

/// Update settings request
#[derive(Debug, Clone, Copy)]
pub struct UpdateSettingsRequest {
    pub max_concurrent_downloads: Option<usize>,
    pub start_on_login: Option<bool>,
}

/// Add file type request
#[derive(Debug)]
pub struct AddFileTypeRequest {
    pub name: String,
    pub extensions: Vec<String>,
    pub destination: String,
}

/// Update file type request
#[derive(Debug)]
pub struct UpdateFileTypeRequest {
    pub name: Option<String>,
    pub extensions: Option<Vec<String>>,
    pub destination: Option<String>,
}

/// Application error type
#[derive(Debug)]
pub enum AppError {
    Internal(String),
    BadRequest(String),
    NotFound(String),
}

impl AppError {
    /// The HTTP status that reports this error.
    pub open spec fn status_code_spec(self) -> u16 {
        match self {
            AppError::Internal(_) => 500,
            AppError::BadRequest(_) => 400,
            AppError::NotFound(_) => 404,
        }
    }

    /// The HTTP status that reports this error.
    pub fn status_code(&self) -> (out: u16)
        ensures
            out == self.status_code_spec(),
    {
        match self {
            AppError::Internal(_) => 500,
            AppError::BadRequest(_) => 400,
            AppError::NotFound(_) => 404,
        }
    }

    /// The text of this error.
    pub fn message(&self) -> (out: &String)
        ensures
            *out == match *self {
                AppError::Internal(text) => text,
                AppError::BadRequest(text) => text,
                AppError::NotFound(text) => text,
            },
    {
        match self {
            AppError::Internal(text) => text,
            AppError::BadRequest(text) => text,
            AppError::NotFound(text) => text,
        }
    }
}

/// A request path with no dot in it names no file: it is answered with the
/// front page, which routes it in the browser.
pub open spec fn serves_index_spec(path: Seq<char>) -> bool {
    !path.contains('.')
}

/// Whether a request path that names no stored file is answered with the
/// front page.
pub fn serves_index(path: &str) -> (out: bool)
    ensures
        out == serves_index_spec(path@),
{
    let chars = chars_of(path);
    let mut i: usize = 0;
    while i < chars.len()
        invariant
            i <= chars@.len(),
            chars@ == path@,
            forall|j: int| 0 <= j < i ==> chars@[j] != '.',
        decreases chars@.len() - i,
    {
        if chars[i] == '.' {
            return false;
        }
        i = i + 1;
    }
    true
}

/// The name under which the file for a request path is stored: the path
/// without the slashes at its start.
pub fn asset_path(path: &str) -> (out: String)
    ensures
        out@ == strip_start(path@, '/'),
{
    let chars = chars_of(path);
    let mut from: usize = 0;
    assert(chars@.skip(0) =~= chars@);
    while from < chars.len() && chars[from] == '/'
        invariant
            from <= chars@.len(),
            chars@ == path@,
            strip_start(path@, '/') == strip_start(chars@.skip(from as int), '/'),
        decreases chars@.len() - from,
    {
        assert(chars@.skip(from as int).drop_first() =~= chars@.skip(from + 1));
        from = from + 1;
    }
    assert(chars@.skip(from as int) =~= path@.subrange(from as int, path@.len() as int));
    path.substring_char(from, chars.len()).to_owned()
}

/// Turns a request, made at `now`, into the record of a new download. The folder is that of
/// the kind of file asked for, or of the general kind where the kind is
/// unknown; where neither is listed the request is refused as bad. The file
/// name is the one asked for, else the one found in the address, else a
/// made-up one.
pub fn prepare_download(settings: &Settings, request: AddDownloadRequest, now: i64) -> (out:
    Result<DownloadRecord, AppError>)
    ensures
        match resolve_type(settings.file_types@, request.file_type@) {
            None => out matches Err(AppError::BadRequest(text)) && text@ == "Unknown file type"@,
            Some(config) => {
                &&& out matches Ok(record)
                &&& uuid_text(record.id@)
                &&& record == DownloadRecord::fresh(
                    record.id,
                    now,
                    request.url,
                    record.filename,
                    request.file_type,
                    config.destination,
                )
                &&& match request.filename {
                    Some(asked) => record.filename == asked,
                    None => match hinted_filename_spec(request.url@, None) {
                        Some(found) => record.filename@ == found,
                        None => is_generated_name(record.filename@)
                            && !record.filename@.contains('/'),
                    },
                }
            },
        },
{
    let destination = match settings.resolve_file_type(request.file_type.as_str()) {
        Some(config) => config.destination.clone(),
        None => {
            return Err(AppError::BadRequest(String::from_str("Unknown file type")));
        },
    };
    let filename = resolve_filename(request.filename, request.url.as_str(), None);
    Ok(DownloadRecord::new(request.url, filename, request.file_type, destination, now))
}

/// The answer to a request for a download, once it has been submitted.
pub fn submission_response(id: String, submission: &Submission) -> (out: AddDownloadResponse)
    ensures
        out.id == id,
        out.queued == (*submission is Queued),
{
    let queued = match submission {
        Submission::Queued => true,
        Submission::Started(_) => false,
    };
    AddDownloadResponse { id, queued }
}

impl Settings {
    /// What of the settings is shown to clients.
    pub open spec fn shown(self) -> SettingsResponse {
        SettingsResponse {
            server_port: self.server.port,
            max_concurrent_downloads: self.max_concurrent_downloads,
            start_on_login: self.start_on_login,
        }
    }

    /// What of the settings is shown to clients.
    pub fn response(&self) -> (out: SettingsResponse)
        ensures
            out == self.shown(),
    {
        SettingsResponse {
            server_port: self.server.port,
            max_concurrent_downloads: self.max_concurrent_downloads,
            start_on_login: self.start_on_login,
        }
    }

    /// Takes over what a request sets and leaves the rest as it is.
    pub fn apply_update(&mut self, request: UpdateSettingsRequest) -> (out: SettingsResponse)
        ensures
            final(self).max_concurrent_downloads == match request.max_concurrent_downloads {
                Some(max) => max,
                None => old(self).max_concurrent_downloads,
            },
            final(self).start_on_login == match request.start_on_login {
                Some(start) => start,
                None => old(self).start_on_login,
            },
            final(self).server == old(self).server,
            final(self).file_types == old(self).file_types,
            final(self).start_on_boot == old(self).start_on_boot,
            out == final(self).shown(),
    {
        match request.max_concurrent_downloads {
            Some(max) => {
                self.max_concurrent_downloads = max;
            },
            None => {},
        }
        match request.start_on_login {
            Some(start) => {
                self.start_on_login = start;
            },
            None => {},
        }
        self.response()
    }

    /// Lists a new kind and gives its id: the one derived from its name, or
    /// the first of that id with `-1`, `-2` and so on behind it that is not
    /// listed yet.
    pub fn add_file_type(&mut self, request: AddFileTypeRequest) -> (id: String)
        ensures
            old(self).wf() ==> final(self).wf(),
            !type_ids(old(self).file_types@).contains(id@),
            exists|turn: nat|
                id@ == #[trigger] candidate(id_from_name(request.name@), turn) && forall|m: nat|
                    m < turn ==> type_ids(old(self).file_types@).contains(
                        #[trigger] candidate(id_from_name(request.name@), m),
                    ),
            final(self).file_types@.len() == old(self).file_types@.len() + 1,
            final(self).file_types@.drop_last() == old(self).file_types@,
            final(self).file_types@.last().id@ == id@,
            final(self).file_types@.last().config == (FileTypeConfig {
                name: request.name,
                extensions: request.extensions,
                destination: request.destination,
            }),
            final(self).server == old(self).server,
            final(self).max_concurrent_downloads == old(self).max_concurrent_downloads,
            final(self).start_on_login == old(self).start_on_login,
            final(self).start_on_boot == old(self).start_on_boot,
    {
        let base = type_id_base(request.name.as_str());
        let id = self.free_type_id(base.as_str());
        let listed = id.clone();
        let config = FileTypeConfig {
            name: request.name,
            extensions: request.extensions,
            destination: request.destination,
        };
        let ghost before = self.file_types@;
        let added = self.insert_file_type(listed, config);
        proof {
            assert(added);
            assert(self.file_types@.drop_last() =~= before);
        }
        id
    }

    /// Changes the kind listed under `id` as far as the request says. An id
    /// that is not listed is not found.
    pub fn update_file_type(&mut self, id: &str, request: UpdateFileTypeRequest) -> (out: Result<
        (),
        AppError,
    >)
        ensures
            type_ids(final(self).file_types@) == type_ids(old(self).file_types@),
            forall|k: int|
                0 <= k < old(self).file_types@.len() && (#[trigger] old(self).file_types@[k]).id@
                    != id@ ==> final(self).file_types@[k] == old(self).file_types@[k],
            final(self).server == old(self).server,
            final(self).max_concurrent_downloads == old(self).max_concurrent_downloads,
            final(self).start_on_login == old(self).start_on_login,
            final(self).start_on_boot == old(self).start_on_boot,
            match find_type(old(self).file_types@, id@) {
                None => out matches Err(AppError::NotFound(text)) && text@
                    == "File type not found"@
                    && final(self).file_types@ == old(self).file_types@,
                Some(before) => out is Ok && find_type(final(self).file_types@, id@) == Some(
                    FileTypeConfig {
                        name: match request.name {
                            Some(name) => name,
                            None => before.name,
                        },
                        extensions: match request.extensions {
                            Some(extensions) => extensions,
                            None => before.extensions,
                        },
                        destination: match request.destination {
                            Some(destination) => destination,
                            None => before.destination,
                        },
                    },
                ),
            },
    {
        let at = match self.position(id) {
            Some(at) => at,
            None => {
                return Err(AppError::NotFound(String::from_str("File type not found")));
            },
        };
        let ghost before = self.file_types@;
        let entry = self.file_types.remove(at);
        let changed = FileTypeEntry {
            id: entry.id,
            config: FileTypeConfig {
                name: match request.name {
                    Some(name) => name,
                    None => entry.config.name,
                },
                extensions: match request.extensions {
                    Some(extensions) => extensions,
                    None => entry.config.extensions,
                },
                destination: match request.destination {
                    Some(destination) => destination,
                    None => entry.config.destination,
                },
            },
        };
        self.file_types.insert(at, changed);
        proof {
            assert(self.file_types@ =~= before.update(at as int, changed));
            assert(type_ids(self.file_types@) =~= type_ids(before));
            lemma_find_updated(before, at as int, changed);
        }
        Ok(())
    }

    /// Takes the kind listed under `id` off the list. The general kind
    /// cannot be removed; an id that is not listed is not found.
    pub fn remove_file_type(&mut self, id: &str) -> (out: Result<(), AppError>)
        ensures
            old(self).wf() ==> final(self).wf(),
            final(self).server == old(self).server,
            final(self).max_concurrent_downloads == old(self).max_concurrent_downloads,
            final(self).start_on_login == old(self).start_on_login,
            final(self).start_on_boot == old(self).start_on_boot,
            id@ == GENERAL@ ==> (out matches Err(AppError::BadRequest(text)) && text@
                == "Cannot remove default file type"@),
            id@ != GENERAL@ && find_type(old(self).file_types@, id@) is None ==> (out matches Err(
                AppError::NotFound(text),
            ) && text@ == "File type not found"@),
            out is Err ==> final(self).file_types@ == old(self).file_types@,
            out is Ok && old(self).wf() ==> !type_ids(final(self).file_types@).contains(id@),
            out is Ok ==> id@ != GENERAL@ && exists|at: int|
                0 <= at < old(self).file_types@.len() && old(self).file_types@[at].id@ == id@
                    && (forall|k: int| 0 <= k < at ==> old(self).file_types@[k].id@ != id@)
                    && final(self).file_types@ == #[trigger] old(self).file_types@.remove(at),
            id@ != GENERAL@ && find_type(old(self).file_types@, id@) is Some ==> out is Ok,
    {
        if str_eq(id, GENERAL) {
            return Err(AppError::BadRequest(String::from_str("Cannot remove default file type")));
        }
        match self.position(id) {
            Some(at) => {
                let ghost ids = type_ids(self.file_types@);
                self.file_types.remove(at);
                proof {
                    assert(type_ids(self.file_types@) =~= ids.remove(at as int));
                    assert(ids[at as int] == id@);
                    if old(self).wf() {
                        lemma_remove_to_set(ids, at as int);
                        assert(!ids.remove(at as int).to_set().contains(id@));
                    }
                }
                Ok(())
            },
            None => Err(AppError::NotFound(String::from_str("File type not found"))),
        }
    }
}

/// Replacing the first kind listed under an id, and keeping the id, makes
/// the new kind the one that is found under it.
proof fn lemma_find_updated(entries: Seq<FileTypeEntry>, at: int, changed: FileTypeEntry)
    requires
        0 <= at < entries.len(),
        changed.id@ == entries[at].id@,
        find_type(entries, entries[at].id@) == Some(entries[at].config),
        forall|k: int| 0 <= k < at ==> (#[trigger] entries[k]).id@ != entries[at].id@,
    ensures
        find_type(entries.update(at, changed), changed.id@) == Some(changed.config),
    decreases entries.len(),
{
    let after = entries.update(at, changed);
    if at > 0 {
        assert(entries[0].id@ != entries[at].id@);
        assert(after.drop_first() =~= entries.drop_first().update(at - 1, changed));
        assert forall|k: int| 0 <= k < at - 1 implies (#[trigger] entries.drop_first()[k]).id@
            != entries.drop_first()[at - 1].id@ by {
            assert(entries.drop_first()[k] == entries[k + 1]);
        }
        lemma_find_updated(entries.drop_first(), at - 1, changed);
    }
}

} // verus!
