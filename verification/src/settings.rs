//! The application's settings: where the server listens, how many downloads
//! may run at once, and which folder each kind of file goes to.

use vstd::prelude::*;
use vstd::string::*;
use crate::outside::{alphanumeric, is_alphanumeric, lowercased, to_lowercase};
use crate::text::{
    chars_of, decimal, decimal_string, lemma_decimal_injective, lemma_decimal_nonempty, str_eq,
    texts,
};

verus! {

/// The id of the kind of file that every other kind falls back to.
pub const GENERAL: &'static str = "general";

/// Server configuration
#[derive(Debug, Clone)]
pub struct ServerSettings {
    /// Host to bind to (0.0.0.0 for LAN access)
    pub host: String,
    /// Port to listen on
    pub port: u16,
}

/// Configuration for a file type category
#[derive(Debug, Clone)]
pub struct FileTypeConfig {
    /// Display name for the file type
    pub name: String,
    /// File extensions that belong to this category
    pub extensions: Vec<String>,
    /// Destination folder for downloads of this type
    pub destination: String,
}

/// One kind of file, under its id.
#[derive(Debug, Clone)]
pub struct FileTypeEntry {
    pub id: String,
    pub config: FileTypeConfig,
}

/// Main application settings
#[derive(Debug, Clone)]
pub struct Settings {
    /// Server configuration
    pub server: ServerSettings,
    /// Maximum number of concurrent downloads
    pub max_concurrent_downloads: usize,
    /// File type to destination folder mappings; no id occurs twice
    pub file_types: Vec<FileTypeEntry>,
    /// Whether to start on system login
    pub start_on_login: bool,
    /// Whether to start on boot without login
    pub start_on_boot: bool,
}

/// The ids of the kinds, in the order they are listed.
pub open spec fn type_ids(entries: Seq<FileTypeEntry>) -> Seq<Seq<char>> {
    entries.map_values(|e: FileTypeEntry| e.id@)
}

/// The first kind listed under `id`.
pub open spec fn find_type(entries: Seq<FileTypeEntry>, id: Seq<char>) -> Option<FileTypeConfig>
    decreases entries.len(),
{
    if entries.len() == 0 {
        None
    } else if entries.first().id@ == id {
        Some(entries.first().config)
    } else {
        find_type(entries.drop_first(), id)
    }
}

/// The kind that a download asked for under `id` gets: that kind where it
/// is listed, the general kind where not, none where even that is missing.
pub open spec fn resolve_type(entries: Seq<FileTypeEntry>, id: Seq<char>) -> Option<
    FileTypeConfig,
> {
    match find_type(entries, id) {
        Some(config) => Some(config),
        None => find_type(entries, GENERAL@),
    }
}

/// The folder of one of the kinds that come with the defaults.
pub open spec fn default_folder(downloads: Seq<char>, sub: Seq<char>) -> Seq<char> {
    downloads + "/"@ + sub
}

/// The name of the settings file.
pub const CONFIG_FILE: &'static str = "config.toml";

/// The path of the settings file in the configuration folder `config_dir`.
pub fn config_path(config_dir: &str) -> (out: String)
    ensures
        out@ == config_dir@ + "/"@ + CONFIG_FILE@,
{
    String::from_str(config_dir).concat("/").concat(CONFIG_FILE)
}

/// A text with a dash in place of every character that is neither letter
/// nor number.
pub open spec fn dashed(text: Seq<char>) -> Seq<char> {
    text.map_values(
        |c: char|
            if alphanumeric(c) {
                c
            } else {
                '-'
            },
    )
}

/// The id that a kind gets from its name: the name in lower case, dashed.
pub open spec fn id_from_name(name: Seq<char>) -> Seq<char> {
    dashed(lowercased(name))
}

/// The ids tried for a new kind, in turn: the id itself, then the id with
/// `-1`, `-2` and so on behind it.
pub open spec fn candidate(base: Seq<char>, turn: nat) -> Seq<char> {
    if turn == 0 {
        base
    } else {
        base + "-"@ + decimal(turn)
    }
}

/// The ids tried in different turns differ.
pub proof fn lemma_candidates_differ(base: Seq<char>, a: nat, b: nat)
    requires
        a != b,
    ensures
        candidate(base, a) != candidate(base, b),
{
    reveal_strlit("-");
    let head = base + "-"@;
    lemma_decimal_nonempty(a);
    lemma_decimal_nonempty(b);
    if candidate(base, a) == candidate(base, b) {
        if a != 0 && b != 0 {
            assert((head + decimal(a)).subrange(head.len() as int, (head + decimal(a)).len() as int)
                =~= decimal(a));
            assert((head + decimal(b)).subrange(head.len() as int, (head + decimal(b)).len() as int)
                =~= decimal(b));
            lemma_decimal_injective(a, b);
        } else if a == 0 {
            assert((head + decimal(b)).len() > base.len());
        } else {
            assert((head + decimal(a)).len() > base.len());
        }
    }
}

/// Where the first `turns` ids tried are all taken, the list holds at least
/// that many ids.
pub proof fn lemma_taken_candidates(ids: Seq<Seq<char>>, base: Seq<char>, turns: nat)
    requires
        forall|m: nat| m < turns ==> ids.contains(#[trigger] candidate(base, m)),
    ensures
        turns <= ids.len(),
{
    let tried = Seq::new(turns, |m: int| candidate(base, m as nat));
    assert forall|i: int, j: int| 0 <= i < tried.len() && 0 <= j < tried.len() && i != j implies tried[i]
        != tried[j] by {
        lemma_candidates_differ(base, i as nat, j as nat);
    }
    tried.unique_seq_to_set();
    ids.lemma_cardinality_of_set();
    assert forall|x: Seq<char>| tried.to_set().contains(x) implies ids.to_set().contains(x) by {
        let k = choose|k: int| 0 <= k < tried.len() && tried[k] == x;
        assert(ids.contains(candidate(base, k as nat)));
    }
    vstd::set_lib::lemma_len_subset(tried.to_set(), ids.to_set());
}

/// Derives the id of a kind from its name.
pub fn type_id_base(name: &str) -> (out: String)
    ensures
        out@ == id_from_name(name@),
{
    let lower = to_lowercase(name);
    let chars = chars_of(lower.as_str());
    let mut out = String::new();
    let mut i: usize = 0;
    while i < chars.len()
        invariant
            i <= chars@.len(),
            chars@ == lower@,
            out@ == dashed(chars@.take(i as int)),
        decreases chars@.len() - i,
    {
        if is_alphanumeric(chars[i]) {
            out.append(lower.as_str().substring_char(i, i + 1));
            proof {
                assert(lower@.subrange(i as int, i + 1) =~= seq![chars@[i as int]]);
            }
        } else {
            out.append("-");
            proof {
                reveal_strlit("-");
                assert("-"@ =~= seq!['-']);
            }
        }
        proof {
            assert(chars@.take(i + 1) =~= chars@.take(i as int).push(chars@[i as int]));
            assert(out@ =~= dashed(chars@.take(i + 1)));
        }
        i = i + 1;
    }
    proof {
        assert(chars@.take(chars@.len() as int) =~= chars@);
    }
    out
}

/// A kind is listed under `id` exactly where the id is among the ids.
pub proof fn lemma_find_type(entries: Seq<FileTypeEntry>, id: Seq<char>)
    ensures
        find_type(entries, id) is Some <==> type_ids(entries).contains(id),
    decreases entries.len(),
{
    let ids = type_ids(entries);
    if entries.len() == 0 {
    } else if entries.first().id@ == id {
        assert(ids[0] == id);
    } else {
        let rest = entries.drop_first();
        lemma_find_type(rest, id);
        assert(type_ids(rest) =~= ids.drop_first());
        if ids.contains(id) {
            let k = choose|k: int| 0 <= k < ids.len() && ids[k] == id;
            assert(ids.drop_first()[k - 1] == id);
        }
        if ids.drop_first().contains(id) {
            let k = choose|k: int| 0 <= k < ids.drop_first().len() && ids.drop_first()[k] == id;
            assert(ids[k + 1] == id);
        }
    }
}

impl Default for ServerSettings {
    fn default() -> (out: ServerSettings)
        ensures
            out.host@ == "0.0.0.0"@,
            out.port == 8787,
    {
        ServerSettings { host: String::from_str("0.0.0.0"), port: 8787 }
    }
}

impl Settings {
    /// No id is listed twice.
    pub open spec fn wf(&self) -> bool {
        type_ids(self.file_types@).no_duplicates()
    }

    /// Where the kind with this id stands in the list.
    pub fn position(&self, id: &str) -> (out: Option<usize>)
        ensures
            match out {
                Some(at) => {
                    &&& at < self.file_types@.len()
                    &&& self.file_types@[at as int].id@ == id@
                    &&& find_type(self.file_types@, id@) == Some(
                        self.file_types@[at as int].config,
                    )
                    &&& forall|k: int| 0 <= k < at ==> (#[trigger] self.file_types@[k]).id@ != id@
                },
                None => find_type(self.file_types@, id@) is None,
            },
    {
        let mut at: usize = 0;
        assert(self.file_types@.skip(0) =~= self.file_types@);
        while at < self.file_types.len()
            invariant
                at <= self.file_types@.len(),
                forall|k: int| 0 <= k < at ==> (#[trigger] self.file_types@[k]).id@ != id@,
                find_type(self.file_types@, id@) == find_type(
                    self.file_types@.skip(at as int),
                    id@,
                ),
            decreases self.file_types@.len() - at,
        {
            if str_eq(self.file_types[at].id.as_str(), id) {
                return Some(at);
            }
            assert(self.file_types@.skip(at as int).drop_first() =~= self.file_types@.skip(
                at + 1,
            ));
            at = at + 1;
        }
        None
    }

    /// The kind listed under `id`.
    pub fn file_type(&self, id: &str) -> (out: Option<&FileTypeConfig>)
        ensures
            match out {
                Some(config) => find_type(self.file_types@, id@) == Some(*config),
                None => find_type(self.file_types@, id@) is None,
            },
    {
        match self.position(id) {
            Some(at) => Some(&self.file_types[at].config),
            None => None,
        }
    }

    /// The kind that a download asked for under `id` gets; see
    /// `resolve_type`.
    pub fn resolve_file_type(&self, id: &str) -> (out: Option<&FileTypeConfig>)
        ensures
            match out {
                Some(config) => resolve_type(self.file_types@, id@) == Some(*config),
                None => resolve_type(self.file_types@, id@) is None,
            },
    {
        match self.file_type(id) {
            Some(config) => Some(config),
            None => self.file_type(GENERAL),
        }
    }

    /// Lists a new kind under `id`, unless one is listed under it already.
    pub fn insert_file_type(&mut self, id: String, config: FileTypeConfig) -> (added: bool)
        ensures
            old(self).wf() ==> final(self).wf(),
            added == !type_ids(old(self).file_types@).contains(id@),
            added ==> final(self).file_types@ == old(self).file_types@.push(
                FileTypeEntry { id, config },
            ),
            !added ==> *final(self) == *old(self),
            final(self).server == old(self).server,
            final(self).max_concurrent_downloads == old(self).max_concurrent_downloads,
            final(self).start_on_login == old(self).start_on_login,
            final(self).start_on_boot == old(self).start_on_boot,
    {
        proof {
            lemma_find_type(self.file_types@, id@);
        }
        match self.position(id.as_str()) {
            Some(_) => false,
            None => {
                let ghost ids = type_ids(self.file_types@);
                self.file_types.push(FileTypeEntry { id, config });
                assert(type_ids(self.file_types@) =~= ids.push(id@));
                true
            },
        }
    }

    /// The first id, of those tried in turn from `base`, under which no kind
    /// is listed yet.
    pub fn free_type_id(&self, base: &str) -> (out: String)
        ensures
            !type_ids(self.file_types@).contains(out@),
            exists|turn: nat|
                out@ == #[trigger] candidate(base@, turn) && forall|m: nat|
                    m < turn ==> type_ids(self.file_types@).contains(
                        #[trigger] candidate(base@, m),
                    ),
    {
        let ghost ids = type_ids(self.file_types@);
        let mut id = String::from_str(base);
        let mut turn: usize = 0;
        let listed: usize = self.file_types.len();
        proof {
            lemma_find_type(self.file_types@, id@);
        }
        while self.position(id.as_str()).is_some()
            invariant
                listed == self.file_types@.len(),
                ids == type_ids(self.file_types@),
                id@ == candidate(base@, turn as nat),
                turn <= self.file_types@.len(),
                forall|m: nat| m < turn ==> ids.contains(#[trigger] candidate(base@, m)),
                find_type(self.file_types@, id@) is Some <==> ids.contains(id@),
            decreases self.file_types@.len() - turn,
        {
            proof {
                assert forall|m: nat| m < turn + 1 implies ids.contains(
                    #[trigger] candidate(base@, m),
                ) by {
                    if m == turn {
                        assert(candidate(base@, m) == id@);
                    }
                }
                lemma_taken_candidates(ids, base@, (turn + 1) as nat);
                assert(turn + 1 <= listed);
            }
            turn = turn + 1;
            let number = decimal_string(turn as u64);
            id = String::from_str(base).concat("-").concat(number.as_str());
            proof {
                lemma_find_type(self.file_types@, id@);
            }
        }
        id
    }

    /// The settings of a first start, with `downloads` as the folder for
    /// files of the general kind and one folder below it for each other
    /// kind.
    pub fn with_downloads_dir(downloads: &str) -> (out: Settings)
        ensures
            out.wf(),
            out.server.host@ == "0.0.0.0"@,
            out.server.port == 8787,
            out.max_concurrent_downloads == 3,
            !out.start_on_login,
            !out.start_on_boot,
            type_ids(out.file_types@) == seq![
                "general"@,
                "video"@,
                "audio"@,
                "documents"@,
                "images"@,
                "archives"@,
            ],
            out.file_types@[0].config.destination@ == downloads@,
            out.file_types@[1].config.destination@ == default_folder(downloads@, "Videos"@),
            out.file_types@[2].config.destination@ == default_folder(downloads@, "Audio"@),
            out.file_types@[3].config.destination@ == default_folder(downloads@, "Documents"@),
            out.file_types@[4].config.destination@ == default_folder(downloads@, "Images"@),
            out.file_types@[5].config.destination@ == default_folder(downloads@, "Archives"@),
            out.file_types@[0].config.name@ == "General"@,
            out.file_types@[1].config.name@ == "Video"@,
            out.file_types@[2].config.name@ == "Audio"@,
            out.file_types@[3].config.name@ == "Documents"@,
            out.file_types@[4].config.name@ == "Images"@,
            out.file_types@[5].config.name@ == "Archives"@,
            texts(out.file_types@[0].config.extensions@) == seq!["*"@],
            texts(out.file_types@[1].config.extensions@) == seq![
                "mp4"@,
                "mkv"@,
                "avi"@,
                "mov"@,
                "webm"@,
            ],
            texts(out.file_types@[2].config.extensions@) == seq![
                "mp3"@,
                "flac"@,
                "wav"@,
                "aac"@,
                "ogg"@,
            ],
            texts(out.file_types@[3].config.extensions@) == seq![
                "pdf"@,
                "doc"@,
                "docx"@,
                "txt"@,
                "xlsx"@,
            ],
            texts(out.file_types@[4].config.extensions@) == seq![
                "jpg"@,
                "jpeg"@,
                "png"@,
                "gif"@,
                "webp"@,
                "svg"@,
            ],
            texts(out.file_types@[5].config.extensions@) == seq![
                "zip"@,
                "rar"@,
                "7z"@,
                "tar"@,
                "gz"@,
            ],
    {
        let mut file_types: Vec<FileTypeEntry> = Vec::new();
        file_types.push(
            FileTypeEntry {
                id: String::from_str("general"),
                config: FileTypeConfig {
                    name: String::from_str("General"),
                    extensions: names(vec!["*"]),
                    destination: String::from_str(downloads),
                },
            },
        );
        file_types.push(
            default_entry(downloads, "video", "Video", "Videos", vec![
                "mp4",
                "mkv",
                "avi",
                "mov",
                "webm",
            ]),
        );
        file_types.push(
            default_entry(downloads, "audio", "Audio", "Audio", vec![
                "mp3",
                "flac",
                "wav",
                "aac",
                "ogg",
            ]),
        );
        file_types.push(
            default_entry(downloads, "documents", "Documents", "Documents", vec![
                "pdf",
                "doc",
                "docx",
                "txt",
                "xlsx",
            ]),
        );
        file_types.push(
            default_entry(downloads, "images", "Images", "Images", vec![
                "jpg",
                "jpeg",
                "png",
                "gif",
                "webp",
                "svg",
            ]),
        );
        file_types.push(
            default_entry(downloads, "archives", "Archives", "Archives", vec![
                "zip",
                "rar",
                "7z",
                "tar",
                "gz",
            ]),
        );
        proof {
            let ids = type_ids(file_types@);
            assert(ids =~= seq![
                "general"@,
                "video"@,
                "audio"@,
                "documents"@,
                "images"@,
                "archives"@,
            ]);
            reveal_strlit("general");
            reveal_strlit("video");
            reveal_strlit("audio");
            reveal_strlit("documents");
            reveal_strlit("images");
            reveal_strlit("archives");
            assert("general"@[0] == 'g' && "video"@[0] == 'v' && "documents"@[0] == 'd'
                && "images"@[0] == 'i');
            assert("audio"@[0] == 'a' && "audio"@[1] == 'u' && "archives"@[0] == 'a'
                && "archives"@[1] == 'r');
            assert(ids.no_duplicates());
            assert(texts(file_types@[0].config.extensions@) =~= seq!["*"@]);
            assert(texts(file_types@[1].config.extensions@) =~= seq![
                "mp4"@,
                "mkv"@,
                "avi"@,
                "mov"@,
                "webm"@,
            ]);
            assert(texts(file_types@[2].config.extensions@) =~= seq![
                "mp3"@,
                "flac"@,
                "wav"@,
                "aac"@,
                "ogg"@,
            ]);
            assert(texts(file_types@[3].config.extensions@) =~= seq![
                "pdf"@,
                "doc"@,
                "docx"@,
                "txt"@,
                "xlsx"@,
            ]);
            assert(texts(file_types@[4].config.extensions@) =~= seq![
                "jpg"@,
                "jpeg"@,
                "png"@,
                "gif"@,
                "webp"@,
                "svg"@,
            ]);
            assert(texts(file_types@[5].config.extensions@) =~= seq![
                "zip"@,
                "rar"@,
                "7z"@,
                "tar"@,
                "gz"@,
            ]);
        }
        Settings {
            server: ServerSettings::default(),
            max_concurrent_downloads: 3,
            file_types,
            start_on_login: false,
            start_on_boot: false,
        }
    }
}

/// Copies a list of names into strings.
fn names(list: Vec<&'static str>) -> (out: Vec<String>)
    ensures
        out@.len() == list@.len(),
        forall|i: int| 0 <= i < list@.len() ==> (#[trigger] out@[i])@ == list@[i]@,
{
    let mut out: Vec<String> = Vec::new();
    let mut i: usize = 0;
    while i < list.len()
        invariant
            i <= list@.len(),
            out@.len() == i,
            forall|j: int| 0 <= j < i ==> (#[trigger] out@[j])@ == list@[j]@,
        decreases list@.len() - i,
    {
        out.push(String::from_str(list[i]));
        i = i + 1;
    }
    out
}

/// One of the kinds that come with the defaults, with its folder below
/// `downloads`.
fn default_entry(
    downloads: &str,
    id: &'static str,
    name: &'static str,
    folder: &'static str,
    extensions: Vec<&'static str>,
) -> (out: FileTypeEntry)
    ensures
        out.id@ == id@,
        out.config.name@ == name@,
        out.config.destination@ == default_folder(downloads@, folder@),
        out.config.extensions@.len() == extensions@.len(),
        forall|i: int|
            0 <= i < extensions@.len() ==> (#[trigger] out.config.extensions@[i])@
                == extensions@[i]@,
{
    FileTypeEntry {
        id: String::from_str(id),
        config: FileTypeConfig {
            name: String::from_str(name),
            extensions: names(extensions),
            destination: String::from_str(downloads).concat("/").concat(folder),
        },
    }
}

} // verus!
