//! Where the program keeps its files.

use vstd::prelude::*;
use vstd::string::StringExecFns;

use crate::text;

verus! {

/// The name that the program goes by in the desktop.
pub const APP_TLD: &'static str = "io.github.beacn_on_linux";

/// The name of the program.
pub const APP_NAME: &'static str = "beacn-utility";

/// The title of the program's window.
pub const APP_TITLE: &'static str = "Beacn Utility";

/// What is done with a file or directory that has been given a new name.
#[derive(Clone, Copy, Debug, PartialEq, Eq, Structural)]
pub enum Migration {
    /// There is nothing under the old name.
    Nothing,
    /// What is under the old name is moved to the new one.
    Move,
    /// What is under the old name is deleted.
    RemoveOld,
}

/// What is done, by what there is under the old name and the new one.
pub open spec fn migrated(old_exists: bool, new_exists: bool) -> Migration {
    if !old_exists {
        Migration::Nothing
    } else if new_exists {
        Migration::RemoveOld
    } else {
        Migration::Move
    }
}

/// What there is under the old name and the new one after a migration.
pub open spec fn after_migration(m: Migration, old_exists: bool, new_exists: bool) -> (bool, bool) {
    match m {
        Migration::Nothing => (old_exists, new_exists),
        Migration::Move => (false, true),
        Migration::RemoveOld => (false, new_exists),
    }
}

/// After a migration there is nothing under the old name, there is something under the new one if
/// there was something under either, and another migration does nothing.
pub proof fn migration_settles(old_exists: bool, new_exists: bool)
    ensures
        after_migration(migrated(old_exists, new_exists), old_exists, new_exists) == (
            false,
            old_exists || new_exists,
        ),
        migrated(false, old_exists || new_exists) == Migration::Nothing,
{
}

/// Nothing is moved over what is under the new name, and nothing is deleted but what there is
/// something newer for.
pub proof fn new_names_are_kept(old_exists: bool, new_exists: bool)
    ensures
        migrated(old_exists, new_exists) == Migration::Move <==> old_exists && !new_exists,
        migrated(old_exists, new_exists) == Migration::RemoveOld <==> old_exists && new_exists,
{
}

/// Two names put together.
fn joined(a: &str, b: &str) -> (r: String)
    ensures
        r@ == a@ + b@,
{
    let mut r = String::new();
    r.append(a);
    r.append(b);
    assert(r@ =~= a@ + b@);
    r
}

fn names(a: String, b: String) -> (r: Vec<String>)
    ensures
        text::views(r@) == seq![a@, b@],
{
    let ghost expected = seq![a@, b@];
    let mut r: Vec<String> = Vec::new();
    r.push(a);
    r.push(b);
    assert(text::views(r@) =~= expected);
    r
}

/// Where the program's data is: the name of its directory below the user's data, the name that it
/// had before, and what is done with what is under that.
#[derive(Debug)]
pub struct DataPath {
    pub name: String,
    pub old_name: String,
    pub migration: Migration,
}

/// Where the program's data is, by what there is under the old name and the new one.
pub fn get_data_path(old_exists: bool, exists: bool) -> (r: DataPath)
    ensures
        r.name@ == APP_NAME@,
        r.old_name@ == APP_TLD@,
        r.migration == migrated(old_exists, exists),
{
    let migration = if old_exists && !exists {
        Migration::Move
    } else if old_exists && exists {
        Migration::RemoveOld
    } else {
        Migration::Nothing
    };
    DataPath { name: APP_NAME.to_owned(), old_name: APP_TLD.to_owned(), migration }
}

/// The names of the directories below the user's data that keep the logs.
pub fn get_logs_path() -> (r: Vec<String>)
    ensures
        text::views(r@) == seq![APP_NAME@, "logs"@],
{
    names(APP_NAME.to_owned(), "logs".to_owned())
}

/// The name of the directory below the user's configuration that keeps the program's.
pub fn get_config_path() -> (r: String)
    ensures
        r@ == APP_NAME@,
{
    APP_NAME.to_owned()
}

/// The name of the directory below the user's caches that is the program's.
pub fn get_cache_path() -> (r: String)
    ensures
        r@ == APP_NAME@,
{
    APP_NAME.to_owned()
}

/// The names below the user's configuration of the file that starts the program.
pub open spec fn autostart_path() -> Seq<Seq<char>> {
    seq!["autostart"@, APP_TLD@ + "."@ + APP_NAME@ + ".desktop"@]
}

/// The names below the user's configuration that the file that starts the program had before.
pub open spec fn legacy_autostart_path() -> Seq<Seq<char>> {
    seq!["autostart"@, APP_TLD@ + ".desktop"@]
}

/// The file that starts the program with the desktop.
#[derive(Debug)]
pub struct AutostartFile {
    /// Its names below the user's configuration.
    pub path: Vec<String>,
    /// The names that it had before.
    pub legacy_path: Vec<String>,
    /// What is done with what is under those.
    pub migration: Migration,
}

/// Why there is no file that starts the program with the desktop.
#[derive(Clone, Copy, Debug, PartialEq, Eq, Structural)]
pub enum AutostartError {
    Unsupported,
}

impl AutostartError {
    /// What the user is told.
    pub open spec fn text(self) -> Seq<char> {
        "Autostart is not supported on this platform"@
    }

    /// What the user is told.
    pub fn message(self) -> (r: &'static str)
        ensures
            r@ == self.text(),
    {
        "Autostart is not supported on this platform"
    }
}

/// The file that starts the program with the desktop, by whether the platform is Linux and by what
/// there is under the old name and the new one.
pub fn get_autostart_file(linux: bool, legacy_exists: bool, exists: bool) -> (r: Result<
    AutostartFile,
    AutostartError,
>)
    ensures
        match r {
            Ok(file) => {
                &&& linux
                &&& text::views(file.path@) == autostart_path()
                &&& text::views(file.legacy_path@) == legacy_autostart_path()
                &&& file.migration == migrated(legacy_exists, exists)
            },
            Err(e) => !linux && e == AutostartError::Unsupported,
        },
{
    if !linux {
        return Err(AutostartError::Unsupported);
    }
    let mut file_name = String::new();
    file_name.append(APP_TLD);
    file_name.append(".");
    file_name.append(APP_NAME);
    file_name.append(".desktop");
    assert(file_name@ =~= APP_TLD@ + "."@ + APP_NAME@ + ".desktop"@);
    let path = names("autostart".to_owned(), file_name);
    let legacy_path = names("autostart".to_owned(), joined(APP_TLD, ".desktop"));
    let migration = if legacy_exists {
        if !exists {
            Migration::Move
        } else {
            Migration::RemoveOld
        }
    } else {
        Migration::Nothing
    };
    Ok(AutostartFile { path, legacy_path, migration })
}

/// Whether the program is started with the desktop, by whether the platform is Linux and by what
/// there was under the old name and the new one. What is under the old name counts: it is moved.
pub fn has_autostart(linux: bool, legacy_exists: bool, exists: bool) -> (r: Result<
    bool,
    AutostartError,
>)
    ensures
        r == (if linux {
            Ok::<bool, AutostartError>(
                after_migration(migrated(legacy_exists, exists), legacy_exists, exists).1,
            )
        } else {
            Err::<bool, AutostartError>(AutostartError::Unsupported)
        }),
{
    match get_autostart_file(linux, legacy_exists, exists) {
        Ok(file) => match file.migration {
            Migration::Nothing => Ok(exists),
            Migration::Move => Ok(true),
            Migration::RemoveOld => Ok(exists),
        },
        Err(e) => Err(e),
    }
}

/// The name of the socket that a running instance listens on.
pub open spec fn socket_file_name() -> Seq<char> {
    APP_NAME@ + ".socket"@
}

/// The name of the socket that a running instance listens on.
pub fn get_socket_file_name() -> (r: String)
    ensures
        r@ == socket_file_name(),
{
    joined(APP_NAME, ".socket")
}

/// The names below the directory for runtime files of the socket, where it is a file.
pub fn get_socket_file_path() -> (r: Vec<String>)
    ensures
        text::views(r@) == seq![APP_NAME@, socket_file_name()],
{
    names(APP_NAME.to_owned(), get_socket_file_name())
}

/// What the socket goes by.
#[derive(Debug)]
pub enum SocketName {
    /// A name of its own.
    Namespaced(String),
    /// A file, by its names below the directory for runtime files.
    File(Vec<String>),
}

/// What the socket goes by, where it can have a name of its own or not.
pub fn get_socket_name(namespaced: bool) -> (r: SocketName)
    ensures
        match r {
            SocketName::Namespaced(name) => namespaced && name@ == socket_file_name(),
            SocketName::File(path) => !namespaced && text::views(path@) == seq![
                APP_NAME@,
                socket_file_name(),
            ],
        },
{
    if namespaced {
        SocketName::Namespaced(get_socket_file_name())
    } else {
        SocketName::File(get_socket_file_path())
    }
}

/// The name by which the desktop tells the window's program.
pub fn application_id() -> (r: String)
    ensures
        r@ == APP_TLD@ + "."@ + APP_NAME@,
{
    let mut r = String::new();
    r.append(APP_TLD);
    r.append(".");
    r.append(APP_NAME);
    assert(r@ =~= APP_TLD@ + "."@ + APP_NAME@);
    r
}

} // verus!
