//! The files that configure the children: which they are, in which order they count, and how a change shows.
use crate::config::{config_fault, validate_config, ChildConfig, ConfigError, ConfigFault, ConfigText};
use crate::name_map::NameSet;
use crate::names::{named_within, validate_child_name, MAX_CHILD_NAME};
use crate::order::{is_order, law_sorting_forgets_the_order, law_sorting_permutes_into_order, placed, sort, sorted, Ranked};
use crate::text::{before, lemma_before_asymmetric, lemma_before_irreflexive, lemma_before_total, lemma_before_transitive, chars_of, decimal, glue, same, standing, to_decimal, Standing};
use vstd::prelude::*;

verus! {

/// Where the last dot of a file name stands, or before its beginning where there is none.
pub open spec fn last_dot(name: Seq<char>) -> int
    decreases name.len(),
{
    if name.len() == 0 {
        -1
    } else if name.last() == '.' {
        name.len() - 1
    } else {
        last_dot(name.drop_last())
    }
}

/// A file name with the extension of a configuration. A name that begins with its only dot has no extension.
pub open spec fn config_name(name: Seq<char>) -> bool {
    last_dot(name) > 0 && {
        let extension = name.skip(last_dot(name) + 1);
        extension == "yaml"@ || extension == "yml"@
    }
}

fn tail_is(chars: &Vec<char>, from: usize, text: &str) -> (r: bool)
    requires
        from <= chars.len(),
    ensures
        r == (chars@.skip(from as int) == text@),
{
    let wanted = chars_of(text);
    if chars.len() - from != wanted.len() {
        return false;
    }
    let mut i: usize = 0;
    while i < wanted.len()
        invariant
            i <= wanted.len(),
            from + wanted.len() == chars.len(),
            wanted@ == text@,
            forall|j: int| 0 <= j < i ==> chars@[from + j] == wanted@[j],
        decreases wanted.len() - i,
    {
        if chars[from + i] != wanted[i] {
            assert(chars@.skip(from as int)[i as int] != text@[i as int]);
            return false;
        }
        i = i + 1;
    }
    assert(chars@.skip(from as int) =~= text@);
    true
}

/// Whether a file of this name configures a child.
pub fn is_config_name(name: &str) -> (r: bool)
    ensures
        r == config_name(name@),
{
    let chars = chars_of(name);
    let mut i: usize = chars.len();
    assert(chars@.take(i as int) =~= chars@);
    while i > 0 && chars[i - 1] != '.'
        invariant
            i <= chars.len(),
            last_dot(chars@) == last_dot(chars@.take(i as int)),
        decreases i,
    {
        assert(chars@.take(i as int).drop_last() =~= chars@.take(i - 1));
        i = i - 1;
    }
    assert(last_dot(chars@) == i - 1);
    i > 1 && (tail_is(&chars, i, "yaml") || tail_is(&chars, i, "yml"))
}

/// What was found under the name of a file.
#[derive(Debug)]
pub enum FileRead {
    NotAFile,
    Failed(String),
    Link,
    Unreadable(String),
    Malformed(String),
    Config(ChildConfig),
}

/// A file of the directory that configures the children.
#[derive(Debug)]
pub struct ConfigFile {
    pub name: String,
    pub source: String,
    pub read: FileRead,
}

impl Ranked for ConfigFile {
    open spec fn ahead(self, other: Self) -> bool {
        before(self.name@, other.name@)
    }

    fn is_ahead(&self, other: &Self) -> (r: bool) {
        match standing(&self.name, &other.name) {
            Standing::Before => true,
            Standing::Same => false,
            Standing::After => false,
        }
    }
}

/// A child's configuration and the file that it stands in.
#[derive(Debug)]
pub struct LoadedConfig {
    pub source: String,
    pub config: ChildConfig,
}

#[verifier::ext_equal]
pub struct LoadedText {
    pub source: Seq<char>,
    pub config: ConfigText,
}

impl View for LoadedConfig {
    type V = LoadedText;

    open spec fn view(&self) -> LoadedText {
        LoadedText { source: self.source@, config: self.config@ }
    }
}

impl Clone for LoadedConfig {
    fn clone(&self) -> (r: Self)
        ensures
            r@ == self@,
    {
        LoadedConfig { source: self.source.clone(), config: self.config.clone() }
    }
}

pub open spec fn loaded_texts(loaded: Seq<LoadedConfig>) -> Seq<LoadedText> {
    loaded.map_values(|item: LoadedConfig| item@)
}

/// Why the configurations were not taken over.
#[derive(Debug)]
pub enum FilesError {
    Failed(String),
    Link(String),
    Unreadable(String, String),
    Malformed(String, String),
    Invalid(String, ConfigError),
    Duplicate(String),
}

pub enum FilesFault {
    Failed(Seq<char>),
    Link(Seq<char>),
    Unreadable(Seq<char>, Seq<char>),
    Malformed(Seq<char>, Seq<char>),
    Invalid(Seq<char>, ConfigFault),
    Duplicate(Seq<char>),
}

impl View for FilesError {
    type V = FilesFault;

    open spec fn view(&self) -> FilesFault {
        match self {
            FilesError::Failed(error) => FilesFault::Failed(error@),
            FilesError::Link(source) => FilesFault::Link(source@),
            FilesError::Unreadable(source, error) => FilesFault::Unreadable(source@, error@),
            FilesError::Malformed(source, error) => FilesFault::Malformed(source@, error@),
            FilesError::Invalid(source, error) => FilesFault::Invalid(source@, error@),
            FilesError::Duplicate(name) => FilesFault::Duplicate(name@),
        }
    }
}

impl FilesFault {
    /// What is told of the fault, with its cause behind it.
    pub open spec fn text(self) -> Seq<char> {
        match self {
            FilesFault::Failed(error) => error,
            FilesFault::Link(source) => "child MCP config must not be a symlink: "@ + source,
            FilesFault::Unreadable(source, error) => "cannot read "@ + source + ": "@ + error,
            FilesFault::Malformed(source, error) => "invalid YAML in "@ + source + ": "@ + error,
            FilesFault::Invalid(source, error) => "invalid child config "@ + source + ": "@
                + error.text(),
            FilesFault::Duplicate(name) => "duplicate child MCP name '"@ + name + "'"@,
        }
    }
}

impl FilesError {
    pub fn message(&self) -> (r: String)
        ensures
            r@ == self@.text(),
    {
        match self {
            FilesError::Failed(error) => error.clone(),
            FilesError::Link(source) => glue("child MCP config must not be a symlink: ", source),
            FilesError::Unreadable(source, error) => glue(
                &glue(&glue("cannot read ", source), ": "),
                error,
            ),
            FilesError::Malformed(source, error) => glue(
                &glue(&glue("invalid YAML in ", source), ": "),
                error,
            ),
            FilesError::Invalid(source, error) => glue(
                &glue(&glue("invalid child config ", source), ": "),
                &error.message(),
            ),
            FilesError::Duplicate(name) => glue(&glue("duplicate child MCP name '", name), "'"),
        }
    }
}

/// What becomes of what is loaded when one more file is taken up.
pub open spec fn taken_up(loaded: Seq<LoadedText>, file: ConfigFile) -> Result<
    Seq<LoadedText>,
    FilesFault,
> {
    match file.read {
        FileRead::Failed(error) => Err(FilesFault::Failed(error@)),
        FileRead::NotAFile => Ok(loaded),
        FileRead::Link => if config_name(file.name@) {
            Err(FilesFault::Link(file.source@))
        } else {
            Ok(loaded)
        },
        FileRead::Unreadable(error) => if config_name(file.name@) {
            Err(FilesFault::Unreadable(file.source@, error@))
        } else {
            Ok(loaded)
        },
        FileRead::Malformed(error) => if config_name(file.name@) {
            Err(FilesFault::Malformed(file.source@, error@))
        } else {
            Ok(loaded)
        },
        FileRead::Config(config) => if !config_name(file.name@) {
            Ok(loaded)
        } else if config_fault(config@) is Some {
            Err(FilesFault::Invalid(file.source@, config_fault(config@)->0))
        } else if holds_name(loaded, config.name@) {
            Err(FilesFault::Duplicate(config.name@))
        } else {
            Ok(loaded.push(LoadedText { source: file.source@, config: config@ }))
        },
    }
}

pub open spec fn holds_name(loaded: Seq<LoadedText>, name: Seq<char>) -> bool {
    exists|i: int| 0 <= i < loaded.len() && (#[trigger] loaded[i]).config.name == name
}

/// The configurations of the files, one after the other, up to the first fault.
pub open spec fn all_taken_up(files: Seq<ConfigFile>) -> Result<Seq<LoadedText>, FilesFault>
    decreases files.len(),
{
    if files.len() == 0 {
        Ok(Seq::empty())
    } else {
        match all_taken_up(files.drop_last()) {
            Err(fault) => Err(fault),
            Ok(loaded) => taken_up(loaded, files.last()),
        }
    }
}

proof fn lemma_files_fault_stays(files: Seq<ConfigFile>, n: int)
    requires
        0 <= n <= files.len(),
        all_taken_up(files.take(n)) is Err,
    ensures
        all_taken_up(files) == all_taken_up(files.take(n)),
    decreases files.len() - n,
{
    if n < files.len() {
        assert(files.take(n + 1).drop_last() =~= files.take(n));
        lemma_files_fault_stays(files, n + 1);
    } else {
        assert(files.take(n) =~= files);
    }
}

fn take_up(loaded: &mut Vec<LoadedConfig>, names: &mut NameSet, file: ConfigFile) -> (r: Result<
    (),
    FilesError,
>)
    requires
        forall|name: Seq<char>| #[trigger]
            old(names)@.contains(name) <==> holds_name(loaded_texts(old(loaded)@), name),
    ensures
        match taken_up(loaded_texts(old(loaded)@), file) {
            Ok(texts) => r is Ok && loaded_texts(final(loaded)@) == texts && forall|
                name: Seq<char>,
            | #[trigger]
                final(names)@.contains(name) <==> holds_name(texts, name),
            Err(fault) => r matches Err(e) && e@ == fault,
        },
{
    let named = is_config_name(&file.name);
    match file.read {
        FileRead::Failed(error) => Err(FilesError::Failed(error)),
        FileRead::NotAFile => Ok(()),
        FileRead::Link => if named {
            Err(FilesError::Link(file.source))
        } else {
            Ok(())
        },
        FileRead::Unreadable(error) => if named {
            Err(FilesError::Unreadable(file.source, error))
        } else {
            Ok(())
        },
        FileRead::Malformed(error) => if named {
            Err(FilesError::Malformed(file.source, error))
        } else {
            Ok(())
        },
        FileRead::Config(config) => {
            if !named {
                return Ok(());
            }
            match validate_config(&config) {
                Err(error) => Err(FilesError::Invalid(file.source, error)),
                Ok(()) => {
                    if !names.insert(config.name.clone()) {
                        return Err(FilesError::Duplicate(config.name));
                    }
                    let ghost last = loaded_texts(loaded@);
                    let item = LoadedConfig { source: file.source, config };
                    let ghost text = item@;
                    loaded.push(item);
                    proof {
                        let now = loaded_texts(loaded@);
                        assert(now =~= last.push(text));
                        assert forall|name: Seq<char>| #[trigger] names@.contains(name)
                            <==> holds_name(now, name) by {
                            if holds_name(last, name) {
                                let i = choose|i: int|
                                    0 <= i < last.len() && (#[trigger] last[i]).config.name == name;
                                assert(now[i].config.name == name);
                            }
                            if name == text.config.name {
                                assert(now[last.len() as int].config.name == name);
                            }
                            if holds_name(now, name) {
                                let i = choose|i: int|
                                    0 <= i < now.len() && (#[trigger] now[i]).config.name == name;
                                if i < last.len() {
                                    assert(last[i].config.name == name);
                                }
                            }
                        }
                    }
                    Ok(())
                },
            }
        },
    }
}

/// The children that the files configure, in the order of the file names.
pub fn load_configs(files: Vec<ConfigFile>) -> (r: Result<Vec<LoadedConfig>, FilesError>)
    ensures
        match all_taken_up(sorted(files@)) {
            Ok(texts) => r matches Ok(loaded) && loaded_texts(loaded@) == texts,
            Err(fault) => r matches Err(e) && e@ == fault,
        },
{
    let mut left = sort(files);
    let ghost all = left@;
    let mut loaded: Vec<LoadedConfig> = Vec::new();
    let mut names = NameSet::new();
    assert(loaded_texts(loaded@) =~= Seq::<LoadedText>::empty());
    while left.len() > 0
        invariant
            left@.len() <= all.len(),
            left@ == all.skip(all.len() - left@.len()),
            all == sorted(files@),
            all_taken_up(all.take(all.len() - left@.len())) == Ok::<Seq<LoadedText>, FilesFault>(
                loaded_texts(loaded@),
            ),
            forall|name: Seq<char>| #[trigger]
                names@.contains(name) <==> holds_name(loaded_texts(loaded@), name),
        decreases left.len(),
    {
        let ghost done = all.len() - left@.len();
        let file = left.remove(0);
        proof {
            assert(all.take(done + 1).drop_last() =~= all.take(done));
            assert(all.take(done + 1).last() == file);
            assert(left@ =~= all.skip(done + 1));
            if all_taken_up(all.take(done + 1)) is Err {
                lemma_files_fault_stays(all, done + 1);
            }
        }
        match take_up(&mut loaded, &mut names, file) {
            Ok(()) => {},
            Err(error) => {
                return Err(error);
            },
        }
    }
    assert(all.take(all.len() as int) =~= all);
    Ok(loaded)
}

/// The children that are taken over have different names, and their configurations are in order.
pub proof fn law_loaded_children_are_valid_and_distinct(
    files: Seq<ConfigFile>,
    loaded: Seq<LoadedText>,
)
    requires
        all_taken_up(files) == Ok::<Seq<LoadedText>, FilesFault>(loaded),
    ensures
        forall|i: int|
            0 <= i < loaded.len() ==> config_fault((#[trigger] loaded[i]).config) is None,
        forall|i: int, j: int|
            0 <= i < j < loaded.len() ==> (#[trigger] loaded[i]).config.name != (
            #[trigger] loaded[j]).config.name,
    decreases files.len(),
{
    if files.len() > 0 {
        let last = all_taken_up(files.drop_last())->Ok_0;
        law_loaded_children_are_valid_and_distinct(files.drop_last(), last);
        if loaded.len() > last.len() {
            assert forall|i: int, j: int| 0 <= i < j < loaded.len() implies (
            #[trigger] loaded[i]).config.name != (#[trigger] loaded[j]).config.name by {
                assert(last[i] == loaded[i]);
                if j < last.len() {
                    assert(last[j] == loaded[j]);
                } else {
                    assert(!holds_name(last, loaded[j].config.name));
                }
            }
        }
    }
}

/// Why a child was not enabled or disabled.
#[derive(Debug)]
pub enum EnableError {
    Name,
    Unknown(String),
}

impl EnableError {
    pub fn message(&self) -> (r: String)
        ensures
            r@ == match self {
                EnableError::Name =>
                    "child name may contain only ASCII letters, digits, '_', '-' and '.'"@,
                EnableError::Unknown(name) => "unknown child MCP '"@ + name@ + "'"@,
            },
    {
        match self {
            EnableError::Name =>
                "child name may contain only ASCII letters, digits, '_', '-' and '.'".to_owned(),
            EnableError::Unknown(name) => glue(&glue("unknown child MCP '", name), "'"),
        }
    }
}

/// The configuration to write so that the child is enabled or disabled, and the file to write it to.
pub fn set_enabled(loaded: Vec<LoadedConfig>, name: &str, enabled: bool) -> (r: Result<
    LoadedConfig,
    EnableError,
>)
    ensures
        r is Ok <==> named_within(name@, MAX_CHILD_NAME as int) && holds_name(
            loaded_texts(loaded@),
            name@,
        ),
        r matches Err(e) ==> if named_within(name@, MAX_CHILD_NAME as int) {
            e matches EnableError::Unknown(unknown) && unknown@ == name@
        } else {
            e is Name
        },
        r matches Ok(target) ==> target@.config.name == name@ && target@.config.enabled == enabled
            && exists|i: int|
            0 <= i < loaded@.len() && (#[trigger] loaded@[i])@ == (LoadedText {
                config: (ConfigText { enabled: loaded@[i]@.config.enabled, ..target@.config }),
                ..target@
            }) && forall|j: int| 0 <= j < i ==> (#[trigger] loaded@[j])@.config.name != name@,
        r matches Ok(target) ==> exists|i: int|
            0 <= i < loaded@.len() && (#[trigger] loaded@[i]).config.name@ == name@
                && target.source == loaded@[i].source && target.config == (ChildConfig {
                enabled,
                ..loaded@[i].config
            }),
{
    if validate_child_name(name).is_err() {
        return Err(EnableError::Name);
    }
    let ghost all = loaded@;
    let mut left = loaded;
    while left.len() > 0
        invariant
            left@.len() <= all.len(),
            left@ == all.skip(all.len() - left@.len()),
            all == loaded@,
            named_within(name@, MAX_CHILD_NAME as int),
            forall|j: int|
                0 <= j < all.len() - left@.len() ==> (#[trigger] all[j])@.config.name != name@,
        decreases left.len(),
    {
        let ghost done = all.len() - left@.len();
        let item = left.remove(0);
        assert(item == all[done]);
        assert(left@ =~= all.skip(done + 1));
        if same(&item.config.name, name) {
            let mut config = item.config;
            let ghost was = config@;
            config.enabled = enabled;
            let target = LoadedConfig { source: item.source, config };
            proof {
                assert(loaded@[done].config.name@ == name@);
                assert(target.config == (ChildConfig { enabled, ..loaded@[done].config }));
                assert(loaded_texts(all)[done].config.name == name@);
                assert(all[done]@ =~= (LoadedText {
                    config: (ConfigText { enabled: was.enabled, ..target@.config }),
                    ..target@
                }));
            }
            return Ok(target);
        }
    }
    proof {
        if holds_name(loaded_texts(all), name@) {
            let i = choose|i: int|
                0 <= i < loaded_texts(all).len() && (#[trigger] loaded_texts(all)[i]).config.name
                    == name@;
            assert(all[i]@.config.name == name@);
        }
    }
    Err(EnableError::Unknown(name.to_owned()))
}

/// The name of the file that a configuration is first written to.
pub fn temporary_name(file_name: &str, process: u32) -> (r: String)
    ensures
        r@ == "."@ + file_name@ + "."@ + decimal(process as nat) + ".tmp"@,
{
    glue(&glue(&glue(&glue(".", file_name), "."), &to_decimal(process as u128)), ".tmp")
}

/// What tells one state of a configuration file from another.
#[derive(Debug)]
pub struct SignatureRow {
    pub name: String,
    pub bytes: u64,
    pub modified: Option<i128>,
}

#[verifier::ext_equal]
pub struct RowText {
    pub name: Seq<char>,
    pub bytes: u64,
    pub modified: Option<i128>,
}

impl View for SignatureRow {
    type V = RowText;

    open spec fn view(&self) -> RowText {
        RowText { name: self.name@, bytes: self.bytes, modified: self.modified }
    }
}

pub open spec fn earlier(a: Option<i128>, b: Option<i128>) -> bool {
    match (a, b) {
        (None, Some(_)) => true,
        (Some(a), Some(b)) => a < b,
        (_, None) => false,
    }
}

impl Ranked for SignatureRow {
    open spec fn ahead(self, other: Self) -> bool {
        ||| before(self.name@, other.name@)
        ||| self.name@ == other.name@ && self.bytes < other.bytes
        ||| self.name@ == other.name@ && self.bytes == other.bytes && earlier(
            self.modified,
            other.modified,
        )
    }

    fn is_ahead(&self, other: &Self) -> (r: bool) {
        match standing(&self.name, &other.name) {
            Standing::Before => true,
            Standing::After => false,
            Standing::Same => {
                if self.bytes != other.bytes {
                    self.bytes < other.bytes
                } else {
                    match (self.modified, other.modified) {
                        (None, Some(_)) => true,
                        (Some(a), Some(b)) => a < b,
                        (None, None) => false,
                        (Some(_), None) => false,
                    }
                }
            },
        }
    }
}

/// A file of the directory, as it counts for the signature.
#[derive(Debug)]
pub struct SignatureFile {
    pub is_file: bool,
    pub row: SignatureRow,
}

pub open spec fn counts(file: SignatureFile) -> bool {
    config_name(file.row.name@) && file.is_file
}

pub open spec fn counting_rows(files: Seq<SignatureFile>) -> Seq<SignatureRow> {
    files.filter(|file: SignatureFile| counts(file)).map_values(|file: SignatureFile| file.row)
}

/// What tells one state of the configuration from another: its files in order. Its view are their rows.
#[derive(Debug)]
pub struct ConfigSignature {
    rows: Vec<SignatureRow>,
}

pub open spec fn row_texts(rows: Seq<SignatureRow>) -> Seq<RowText> {
    rows.map_values(|row: SignatureRow| row@)
}

impl View for ConfigSignature {
    type V = Seq<RowText>;

    closed spec fn view(&self) -> Seq<RowText> {
        row_texts(self.rows@)
    }
}

/// The signature of the files of a directory.
pub fn config_signature(files: Vec<SignatureFile>) -> (r: ConfigSignature)
    ensures
        r@ == row_texts(sorted(counting_rows(files@))),
{
    let ghost all = files@;
    let mut left = files;
    let mut rows: Vec<SignatureRow> = Vec::new();
    assert(rows@ =~= counting_rows(all.take(0))) by {
        reveal(Seq::filter);
    }
    while left.len() > 0
        invariant
            left@.len() <= all.len(),
            left@ == all.skip(all.len() - left@.len()),
            rows@ == counting_rows(all.take(all.len() - left@.len())),
        decreases left.len(),
    {
        let ghost done = all.len() - left@.len();
        let file = left.remove(0);
        let ghost last = rows@;
        proof {
            reveal(Seq::filter);
            assert(all.take(done + 1).drop_last() =~= all.take(done));
            assert(all.take(done + 1).last() == file);
            assert(left@ =~= all.skip(done + 1));
        }
        if is_config_name(&file.row.name) && file.is_file {
            let ghost row = file.row;
            rows.push(file.row);
            assert(counting_rows(all.take(done + 1)) =~= last.push(row));
        } else {
            assert(counting_rows(all.take(done + 1)) =~= last);
        }
    }
    assert(all.take(all.len() as int) =~= all);
    ConfigSignature { rows: sort(rows) }
}

fn same_rows(a: &Vec<SignatureRow>, b: &Vec<SignatureRow>) -> (r: bool)
    ensures
        r == (row_texts(a@) == row_texts(b@)),
{
    if a.len() != b.len() {
        assert(row_texts(a@).len() != row_texts(b@).len());
        return false;
    }
    let mut i: usize = 0;
    while i < a.len()
        invariant
            i <= a.len(),
            a.len() == b.len(),
            forall|j: int| 0 <= j < i ==> #[trigger] row_texts(a@)[j] == row_texts(b@)[j],
        decreases a.len() - i,
    {
        let same_time = match (a[i].modified, b[i].modified) {
            (None, None) => true,
            (Some(x), Some(y)) => x == y,
            (None, Some(_)) => false,
            (Some(_), None) => false,
        };
        if !same(&a[i].name, &b[i].name) || a[i].bytes != b[i].bytes || !same_time {
            assert(row_texts(a@)[i as int] != row_texts(b@)[i as int]);
            return false;
        }
        i = i + 1;
    }
    assert(row_texts(a@) =~= row_texts(b@));
    true
}

/// The configuration has changed between two looks, either of which may have failed.
pub open spec fn changed(last: Option<ConfigSignature>, now: Option<ConfigSignature>) -> bool {
    match (last, now) {
        (None, None) => false,
        (Some(last), Some(now)) => last@ != now@,
        _ => true,
    }
}

/// Whether the configuration has changed between two looks, either of which may have failed.
pub fn configs_changed(last: &Option<ConfigSignature>, now: &Option<ConfigSignature>) -> (r: bool)
    ensures
        r == changed(*last, *now),
{
    match (last, now) {
        (None, None) => false,
        (Some(last), Some(now)) => !same_rows(&last.rows, &now.rows),
        (None, Some(_)) => true,
        (Some(_), None) => true,
    }
}

/// What tells one state of a child's executable from another.
#[derive(Debug, PartialEq, Eq)]
pub struct CommandSignature {
    pub canonical_path: Vec<u8>,
    pub len: u64,
    pub modified: Option<i128>,
    pub device: u64,
    pub inode: u64,
}

#[verifier::ext_equal]
pub struct CommandState {
    pub canonical_path: Seq<u8>,
    pub len: u64,
    pub modified: Option<i128>,
    pub device: u64,
    pub inode: u64,
}

impl View for CommandSignature {
    type V = CommandState;

    open spec fn view(&self) -> CommandState {
        CommandState {
            canonical_path: self.canonical_path@,
            len: self.len,
            modified: self.modified,
            device: self.device,
            inode: self.inode,
        }
    }
}

fn same_bytes(a: &Vec<u8>, b: &Vec<u8>) -> (r: bool)
    ensures
        r == (a@ == b@),
{
    if a.len() != b.len() {
        return false;
    }
    let mut i: usize = 0;
    while i < a.len()
        invariant
            i <= a.len(),
            a.len() == b.len(),
            forall|j: int| 0 <= j < i ==> a@[j] == b@[j],
        decreases a.len() - i,
    {
        if a[i] != b[i] {
            return false;
        }
        i = i + 1;
    }
    assert(a@ =~= b@);
    true
}

impl CommandSignature {
    /// Whether the executable is in the same state.
    pub fn same_as(&self, other: &CommandSignature) -> (r: bool)
        ensures
            r == (self@ == other@),
            r <==> self.canonical_path@ == other.canonical_path@ && self.len == other.len
                && self.modified == other.modified && self.device == other.device && self.inode
                == other.inode,
    {
        let same_time = match (self.modified, other.modified) {
            (None, None) => true,
            (Some(x), Some(y)) => x == y,
            (None, Some(_)) => false,
            (Some(_), None) => false,
        };
        same_bytes(&self.canonical_path, &other.canonical_path) && self.len == other.len
            && same_time && self.device == other.device && self.inode == other.inode
    }
}

impl Clone for CommandSignature {
    fn clone(&self) -> (r: Self)
        ensures
            r@ == self@,
    {
        let mut canonical_path: Vec<u8> = Vec::new();
        let mut i: usize = 0;
        while i < self.canonical_path.len()
            invariant
                i <= self.canonical_path.len(),
                canonical_path@ == self.canonical_path@.take(i as int),
            decreases self.canonical_path.len() - i,
        {
            canonical_path.push(self.canonical_path[i]);
            i = i + 1;
        }
        assert(canonical_path@ =~= self.canonical_path@);
        CommandSignature {
            canonical_path,
            len: self.len,
            modified: self.modified,
            device: self.device,
            inode: self.inode,
        }
    }
}

/// Files count in the order of their names, and files of different names never have the same rank.
pub proof fn law_files_are_ranked_by_name()
    ensures
        is_order::<ConfigFile>(),
        forall|a: ConfigFile, b: ConfigFile|
            a.name@ != b.name@ ==> #[trigger] a.ahead(b) || b.ahead(a),
{
    assert forall|a: ConfigFile, b: ConfigFile| #[trigger] a.ahead(b) implies !b.ahead(a) by {
        lemma_before_asymmetric(a.name@, b.name@);
    }
    assert forall|a: ConfigFile, b: ConfigFile, c: ConfigFile|
        !(#[trigger] b.ahead(a)) && !(#[trigger] c.ahead(b)) implies !c.ahead(a) by {
        lemma_not_before_is_transitive(a.name@, b.name@, c.name@);
    }
    assert forall|a: ConfigFile, b: ConfigFile| a.name@ != b.name@ implies #[trigger] a.ahead(b)
        || b.ahead(a) by {
        lemma_before_total(a.name@, b.name@);
    }
}

proof fn lemma_not_before_is_transitive(a: Seq<char>, b: Seq<char>, c: Seq<char>)
    requires
        !before(b, a),
        !before(c, b),
    ensures
        !before(c, a),
        a == c ==> a == b,
{
    lemma_before_total(a, b);
    lemma_before_total(b, c);
    if before(a, b) && before(b, c) {
        lemma_before_transitive(a, b, c);
    }
    if before(c, a) {
        lemma_before_asymmetric(c, a);
    }
    lemma_before_irreflexive(a);
}

/// Rows stand in an order, and rows of different names never have the same rank.
pub proof fn law_rows_are_ranked()
    ensures
        is_order::<SignatureRow>(),
        forall|a: SignatureRow, b: SignatureRow|
            a.name@ != b.name@ ==> #[trigger] a.ahead(b) || b.ahead(a),
{
    assert forall|a: SignatureRow, b: SignatureRow| #[trigger] a.ahead(b) implies !b.ahead(a) by {
        lemma_before_irreflexive(a.name@);
        if before(a.name@, b.name@) {
            lemma_before_asymmetric(a.name@, b.name@);
        }
    }
    assert forall|a: SignatureRow, b: SignatureRow, c: SignatureRow|
        !(#[trigger] b.ahead(a)) && !(#[trigger] c.ahead(b)) implies !c.ahead(a) by {
        lemma_not_before_is_transitive(a.name@, b.name@, c.name@);
    }
    assert forall|a: SignatureRow, b: SignatureRow| a.name@ != b.name@ implies #[trigger] a.ahead(b)
        || b.ahead(a) by {
        lemma_before_total(a.name@, b.name@);
    }
}

/// The order in which a directory lists its files shows neither in the children that are loaded nor in the fault that
/// is told: the files of a directory have different names.
pub proof fn law_listing_order_does_not_matter(a: Seq<ConfigFile>, b: Seq<ConfigFile>)
    requires
        a.to_multiset() == b.to_multiset(),
        forall|i: int, j: int|
            0 <= i < j < a.len() ==> (#[trigger] a[i]).name@ != (#[trigger] a[j]).name@,
    ensures
        all_taken_up(sorted(a)) == all_taken_up(sorted(b)),
{
    law_files_are_ranked_by_name();
    law_sorting_forgets_the_order(a, b);
}

/// The order in which a directory lists its files does not show in the signature either.
pub proof fn law_listing_order_does_not_show_in_the_signature(
    a: Seq<SignatureRow>,
    b: Seq<SignatureRow>,
)
    requires
        a.to_multiset() == b.to_multiset(),
        forall|i: int, j: int|
            0 <= i < j < a.len() ==> (#[trigger] a[i]).name@ != (#[trigger] a[j]).name@,
    ensures
        row_texts(sorted(a)) == row_texts(sorted(b)),
{
    law_rows_are_ranked();
    law_sorting_forgets_the_order(a, b);
}

/// The file could be looked at and configures no child: it is no regular file, or has another extension.
pub open spec fn ignored(file: ConfigFile) -> bool {
    file.read is NotAFile || (!(file.read is Failed) && !config_name(file.name@))
}

proof fn lemma_ignored_file_placed(files: Seq<ConfigFile>, file: ConfigFile)
    requires
        ignored(file),
    ensures
        all_taken_up(placed(files, file)) == all_taken_up(files),
    decreases files.len(),
{
    if files.len() == 0 || !file.ahead(files.last()) {
        assert(files.push(file).drop_last() =~= files);
    } else {
        let rest = files.drop_last();
        lemma_ignored_file_placed(rest, file);
        assert(placed(rest, file).push(files.last()).drop_last() =~= placed(rest, file));
    }
}

/// Files with other extensions are ignored: what is loaded is what is loaded without them.
pub proof fn law_other_files_are_ignored(files: Seq<ConfigFile>, file: ConfigFile)
    requires
        ignored(file),
    ensures
        all_taken_up(sorted(files.push(file))) == all_taken_up(sorted(files)),
{
    assert(files.push(file).drop_last() =~= files);
    lemma_ignored_file_placed(sorted(files), file);
}

/// A configuration that is a link is refused, and no child is loaded.
pub proof fn law_linked_configurations_are_refused(files: Seq<ConfigFile>, i: int)
    requires
        0 <= i < files.len(),
        files[i].read is Link,
        config_name(files[i].name@),
    ensures
        all_taken_up(sorted(files)) is Err,
{
    broadcast use vstd::seq_lib::group_to_multiset_ensures;

    law_files_are_ranked_by_name();
    law_sorting_permutes_into_order(files);
    let all = sorted(files);
    assert(all.contains(files[i])) by {
        assert(files.contains(files[i]));
        assert(files.to_multiset().count(files[i]) > 0);
        assert(all.to_multiset().count(files[i]) > 0);
    }
    let at = choose|at: int| 0 <= at < all.len() && all[at] == files[i];
    assert(all.take(at + 1).drop_last() =~= all.take(at));
    if all_taken_up(all.take(at)) is Err {
        lemma_files_fault_stays(all, at);
    } else {
        assert(all_taken_up(all.take(at + 1)) is Err);
        lemma_files_fault_stays(all, at + 1);
    }
}

proof fn lemma_last_dot(name: Seq<char>)
    ensures
        -1 <= last_dot(name) < name.len(),
        last_dot(name) >= 0 ==> name[last_dot(name)] == '.',
        forall|i: int| last_dot(name) < i < name.len() ==> #[trigger] name[i] != '.',
    decreases name.len(),
{
    if name.len() > 0 && name.last() != '.' {
        let rest = name.drop_last();
        lemma_last_dot(rest);
        assert forall|i: int| last_dot(name) < i < name.len() implies #[trigger] name[i] != '.' by {
            if i < rest.len() {
                assert(rest[i] == name[i]);
            }
        }
    }
}

proof fn lemma_named_with(stem: Seq<char>, extension: Seq<char>)
    requires
        forall|i: int| 0 <= i < extension.len() ==> #[trigger] extension[i] != '.',
    ensures
        last_dot(stem + seq!['.'] + extension) == stem.len(),
        (stem + seq!['.'] + extension).skip(stem.len() as int + 1) == extension,
{
    let name = stem + seq!['.'] + extension;
    lemma_last_dot(name);
    assert(name[stem.len() as int] == '.');
    if last_dot(name) > stem.len() {
        assert(name[last_dot(name)] == extension[last_dot(name) - stem.len() - 1]);
    }
    assert(name.skip(stem.len() as int + 1) =~= extension);
}

/// A file configures a child exactly if its name ends in one of the two extensions, with something before it.
pub proof fn law_configurations_have_one_of_two_extensions(name: Seq<char>)
    ensures
        config_name(name) <==> exists|stem: Seq<char>|
            #![trigger stem.len()]
            stem.len() > 0 && (name == stem + ".yaml"@ || name == stem + ".yml"@),
{
    reveal_strlit("yaml");
    reveal_strlit("yml");
    reveal_strlit(".yaml");
    reveal_strlit(".yml");
    assert(".yaml"@ =~= seq!['.'] + "yaml"@);
    assert(".yml"@ =~= seq!['.'] + "yml"@);
    lemma_last_dot(name);
    if config_name(name) {
        let at = last_dot(name);
        let stem = name.take(at);
        assert(name =~= stem + (seq!['.'] + name.skip(at + 1)));
        assert(stem.len() > 0);
    }
    if exists|stem: Seq<char>|
        #![trigger stem.len()]
        stem.len() > 0 && (name == stem + ".yaml"@ || name == stem + ".yml"@) {
        let stem = choose|stem: Seq<char>|
            #![trigger stem.len()]
            stem.len() > 0 && (name == stem + ".yaml"@ || name == stem + ".yml"@);
        if name == stem + ".yaml"@ {
            lemma_named_with(stem, "yaml"@);
            assert(name =~= stem + seq!['.'] + "yaml"@);
        } else {
            lemma_named_with(stem, "yml"@);
            assert(name =~= stem + seq!['.'] + "yml"@);
        }
    }
}

/// Where the files are taken up, each file that configures a child has its configuration loaded, with its source, and
/// nothing else is loaded; the configurations stand in the order of the files.
pub proof fn law_every_configuration_is_loaded_in_order(files: Seq<ConfigFile>)
    requires
        all_taken_up(files) is Ok,
    ensures
        all_taken_up(files)->Ok_0 == files.filter(
            |file: ConfigFile| file.read is Config && config_name(file.name@),
        ).map_values(
            |file: ConfigFile|
                LoadedText { source: file.source@, config: (file.read->Config_0)@ },
        ),
        forall|i: int|
            0 <= i < files.len() ==> match (#[trigger] files[i]).read {
                FileRead::NotAFile => true,
                FileRead::Failed(_) => false,
                FileRead::Config(config) => config_name(files[i].name@) ==> config_fault(config@)
                    is None,
                _ => !config_name(files[i].name@),
            },
    decreases files.len(),
{
    reveal(Seq::filter);
    let keep = |file: ConfigFile| file.read is Config && config_name(file.name@);
    let show = |file: ConfigFile|
        LoadedText { source: file.source@, config: (file.read->Config_0)@ };
    if files.len() == 0 {
        assert(files.filter(keep).map_values(show) =~= Seq::<LoadedText>::empty());
    } else {
        let rest = files.drop_last();
        law_every_configuration_is_loaded_in_order(rest);
        if keep(files.last()) {
            assert(files.filter(keep).map_values(show) =~= rest.filter(keep).map_values(show).push(
                show(files.last()),
            ));
        } else {
            assert(files.filter(keep) =~= rest.filter(keep));
        }
        assert forall|i: int| 0 <= i < files.len() implies match (#[trigger] files[i]).read {
            FileRead::NotAFile => true,
            FileRead::Failed(_) => false,
            FileRead::Config(config) => config_name(files[i].name@) ==> config_fault(config@)
                is None,
            _ => !config_name(files[i].name@),
        } by {
            if i < rest.len() {
                assert(rest[i] == files[i]);
            }
        }
    }
}

/// What is told where the files are not taken up is true of the first file that has a fault: it could not be looked at,
/// or it is named like a configuration and is a link, cannot be read, says nothing, is not in order, or names a child
/// that a file before it configures.
pub proof fn law_the_first_faulty_file_is_told(files: Seq<ConfigFile>)
    requires
        all_taken_up(files) is Err,
    ensures
        exists|i: int|
            0 <= i < files.len() && all_taken_up(#[trigger] files.take(i)) is Ok && (match files[i].read {
                FileRead::Failed(error) => all_taken_up(files)->Err_0 == FilesFault::Failed(error@),
                FileRead::NotAFile => false,
                FileRead::Link => config_name(files[i].name@) && all_taken_up(files)->Err_0
                    == FilesFault::Link(files[i].source@),
                FileRead::Unreadable(error) => config_name(files[i].name@) && all_taken_up(
                    files,
                )->Err_0 == FilesFault::Unreadable(files[i].source@, error@),
                FileRead::Malformed(error) => config_name(files[i].name@) && all_taken_up(
                    files,
                )->Err_0 == FilesFault::Malformed(files[i].source@, error@),
                FileRead::Config(config) => config_name(files[i].name@) && (if config_fault(
                    config@,
                ) is Some {
                    all_taken_up(files)->Err_0 == FilesFault::Invalid(
                        files[i].source@,
                        config_fault(config@)->0,
                    )
                } else {
                    all_taken_up(files)->Err_0 == FilesFault::Duplicate(config.name@) && exists|
                        j: int,
                    |
                        0 <= j < i && (#[trigger] files[j]).read is Config && (
                        files[j].read->Config_0).name@ == config.name@
                }),
            }),
    decreases files.len(),
{
    let rest = files.drop_last();
    if all_taken_up(rest) is Err {
        law_the_first_faulty_file_is_told(rest);
        assert forall|i: int| 0 <= i < rest.len() implies #[trigger] rest.take(i) == files.take(i)
            && rest[i] == files[i] by {
            assert(rest.take(i) =~= files.take(i));
        }
        assert forall|i: int, j: int|
            0 <= j < i < rest.len() && all_taken_up(#[trigger] rest.take(i)) is Ok && (
            #[trigger] rest[j]).read is Config implies files[j] == rest[j] by {}
    } else {
        let i = files.len() - 1;
        assert(files.take(i) =~= rest);
        if let FileRead::Config(config) = files[i].read {
            if config_name(files[i].name@) && config_fault(config@) is None {
                lemma_held_names_are_configured(rest, config.name@);
                let j = choose|j: int|
                    0 <= j < rest.len() && (#[trigger] rest[j]).read is Config && (
                    rest[j].read->Config_0).name@ == config.name@;
                assert(files[j] == rest[j]);
            }
        }
    }
}

proof fn lemma_held_names_are_configured(files: Seq<ConfigFile>, name: Seq<char>)
    requires
        all_taken_up(files) is Ok,
        holds_name(all_taken_up(files)->Ok_0, name),
    ensures
        exists|j: int|
            0 <= j < files.len() && (#[trigger] files[j]).read is Config && (
            files[j].read->Config_0).name@ == name,
    decreases files.len(),
{
    let rest = files.drop_last();
    let last = all_taken_up(rest)->Ok_0;
    if holds_name(last, name) {
        lemma_held_names_are_configured(rest, name);
        let j = choose|j: int|
            0 <= j < rest.len() && (#[trigger] rest[j]).read is Config && (
            rest[j].read->Config_0).name@ == name;
        assert(files[j] == rest[j]);
    } else {
        let now = all_taken_up(files)->Ok_0;
        let k = choose|k: int| 0 <= k < now.len() && (#[trigger] now[k]).config.name == name;
        if k < last.len() {
            assert(last[k] == now[k]);
        }
        assert(files[files.len() - 1].read is Config);
    }
}

/// The signature shows every configuration: of two directories with one signature, each regular file of the one that is
/// named like a configuration has its like in the other, with the same name, length and time.
pub proof fn law_the_signature_shows_every_configuration(
    a: Seq<SignatureFile>,
    b: Seq<SignatureFile>,
    i: int,
)
    requires
        row_texts(sorted(counting_rows(a))) == row_texts(sorted(counting_rows(b))),
        0 <= i < a.len(),
        a[i].is_file,
        config_name(a[i].row.name@),
    ensures
        exists|j: int|
            0 <= j < b.len() && (#[trigger] b[j]).is_file && b[j].row.name@ == a[i].row.name@
                && b[j].row.bytes == a[i].row.bytes && b[j].row.modified == a[i].row.modified,
{
    broadcast use {vstd::seq_lib::group_to_multiset_ensures, vstd::seq_lib::group_filter_ensures};

    law_rows_are_ranked();
    let keep = |file: SignatureFile| counts(file);
    let (ra, rb) = (counting_rows(a), counting_rows(b));
    law_sorting_permutes_into_order(ra);
    law_sorting_permutes_into_order(rb);
    assert(keep(a[i]));
    assert(a.filter(keep).contains(a[i]));
    let m = choose|m: int| 0 <= m < a.filter(keep).len() && a.filter(keep)[m] == a[i];
    assert(ra[m] == a[i].row);
    assert(ra.contains(a[i].row));
    assert(ra.to_multiset().count(a[i].row) > 0);
    assert(sorted(ra).contains(a[i].row));
    let s = choose|s: int| 0 <= s < sorted(ra).len() && sorted(ra)[s] == a[i].row;
    assert(row_texts(sorted(ra))[s] == a[i].row@);
    assert(row_texts(sorted(ra)).len() == row_texts(sorted(rb)).len());
    assert(row_texts(sorted(rb))[s] == sorted(rb)[s]@);
    let row = sorted(rb)[s];
    assert(sorted(rb).contains(row));
    assert(rb.to_multiset().count(row) > 0);
    assert(rb.contains(row));
    let n = choose|n: int| 0 <= n < rb.len() && rb[n] == row;
    let file = b.filter(keep)[n];
    assert(file.row == row);
    assert(keep(file));
    assert(b.filter(keep).contains(file));
    b.lemma_filter_contains_rev(keep, file);
    let j = choose|j: int| 0 <= j < b.len() && b[j] == file;
    assert(b[j].is_file);
}

/// What is told of each fault of the files: where it is, and what it is.
pub proof fn law_file_errors_are_told_in_words(error: FilesError)
    ensures
        match error {
            FilesError::Failed(reason) => error@.text() == reason@,
            FilesError::Link(source) => error@.text() == "child MCP config must not be a symlink: "@
                + source@,
            FilesError::Unreadable(source, reason) => error@.text() == "cannot read "@ + source@
                + ": "@ + reason@,
            FilesError::Malformed(source, reason) => error@.text() == "invalid YAML in "@ + source@
                + ": "@ + reason@,
            FilesError::Invalid(source, fault) => error@.text() == "invalid child config "@ + source@
                + ": "@ + fault@.text(),
            FilesError::Duplicate(name) => error@.text() == "duplicate child MCP name '"@ + name@
                + "'"@,
        },
{
}

/// A configuration has changed exactly if one look failed and the other did not, or both succeeded and saw different
/// rows.
pub proof fn law_changes_show_in_the_signature(
    last: Option<ConfigSignature>,
    now: Option<ConfigSignature>,
)
    ensures
        !changed(last, now) <==> {
            &&& last is Some <==> now is Some
            &&& last is Some ==> last->0@ == now->0@
        },
{
}

/// A configuration that was loaded is shown with all of it and where it comes from, and those of a list one by one.
pub proof fn law_loaded_configurations_are_shown_in_every_part(loaded: Seq<LoadedConfig>, i: int)
    requires
        0 <= i < loaded.len(),
    ensures
        loaded_texts(loaded).len() == loaded.len(),
        loaded_texts(loaded)[i].source == loaded[i].source@,
        loaded_texts(loaded)[i].config == loaded[i].config@,
        loaded_texts(loaded)[i].config.name == loaded[i].config.name@,
        loaded_texts(loaded)[i].config.enabled == loaded[i].config.enabled,
{
}

} // verus!
