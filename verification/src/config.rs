//! The two settings of a run: where the files go and where the archive is.

use crate::phrack_downloader_error::PhrackDownloaderError;
use vstd::prelude::*;

verus! {

/// The name of a setting.
#[derive(Clone, Copy, Debug, PartialEq, Eq, Structural)]
pub enum ConfigKey {
    /// The directory under which the issues are stored.
    DownloadPath,
    /// The address of the archive, without a slash at its end.
    PhrackArchiveUrl,
}

/// The settings of a run. Both are texts that the planner pastes into paths
/// and addresses as they are.
#[derive(Debug)]
pub struct Config {
    download_path: String,
    phrack_archive_url: String,
}

/// The mathematical content of a [`Config`].
pub struct ConfigView {
    pub download_path: Seq<char>,
    pub phrack_archive_url: Seq<char>,
}

impl ConfigView {
    /// The value stored under `key`.
    pub open spec fn value(self, key: ConfigKey) -> Seq<char> {
        match key {
            ConfigKey::DownloadPath => self.download_path,
            ConfigKey::PhrackArchiveUrl => self.phrack_archive_url,
        }
    }

    /// These settings with `value` stored under `key`.
    pub open spec fn with(self, key: ConfigKey, value: Seq<char>) -> ConfigView {
        match key {
            ConfigKey::DownloadPath => ConfigView { download_path: value, ..self },
            ConfigKey::PhrackArchiveUrl => ConfigView { phrack_archive_url: value, ..self },
        }
    }
}

/// The directory below the home directory in which issues are stored unless
/// the user says otherwise.
pub open spec fn default_download_dir() -> Seq<char> {
    "/.config/phrack-downloader/issues/"@
}

/// The address of the archive unless the user says otherwise.
pub open spec fn default_archive_url() -> Seq<char> {
    "https://archives.phrack.org"@
}

/// The name of `key` on the command line.
pub open spec fn key_name(key: ConfigKey) -> Seq<char> {
    match key {
        ConfigKey::DownloadPath => "download-path"@,
        ConfigKey::PhrackArchiveUrl => "phrack-archive-url"@,
    }
}

/// The settings in the order in which they are listed.
pub open spec fn all_keys() -> Seq<ConfigKey> {
    seq![ConfigKey::DownloadPath, ConfigKey::PhrackArchiveUrl]
}

/// The rows of the settings table: the setting asked for, or all of them.
pub open spec fn table_rows(config: ConfigView, key: Option<ConfigKey>) -> Seq<
    (Seq<char>, Seq<char>),
> {
    match key {
        Some(k) => seq![(key_name(k), config.value(k))],
        None => seq![
            (key_name(ConfigKey::DownloadPath), config.download_path),
            (key_name(ConfigKey::PhrackArchiveUrl), config.phrack_archive_url),
        ],
    }
}

/// The contents of the rows of a table.
pub open spec fn rows_view(rows: Seq<(String, String)>) -> Seq<(Seq<char>, Seq<char>)> {
    rows.map_values(|row: (String, String)| (row.0@, row.1@))
}

impl View for Config {
    type V = ConfigView;

    closed spec fn view(&self) -> ConfigView {
        ConfigView {
            download_path: self.download_path@,
            phrack_archive_url: self.phrack_archive_url@,
        }
    }
}

/// The settings of a user who has changed nothing, given the home directory.
pub fn load_config(home_dir: &str) -> (r: Result<Config, PhrackDownloaderError>)
    ensures
        r is Ok,
        r->Ok_0@ == (ConfigView {
            download_path: home_dir@ + default_download_dir(),
            phrack_archive_url: default_archive_url(),
        }),
{
    let mut download_path = home_dir.to_owned();
    download_path.append("/.config/phrack-downloader/issues/");
    Ok(Config { download_path, phrack_archive_url: "https://archives.phrack.org".to_owned() })
}

impl Config {
    /// Settings with the given values.
    pub fn new(download_path: String, phrack_archive_url: String) -> (config: Config)
        ensures
            config@ == (ConfigView {
                download_path: download_path@,
                phrack_archive_url: phrack_archive_url@,
            }),
    {
        Config { download_path, phrack_archive_url }
    }

    /// The directory under which the issues are stored.
    pub fn download_path(&self) -> (path: &str)
        ensures
            path@ == self@.download_path,
    {
        self.download_path.as_str()
    }

    /// The address of the archive.
    pub fn phrack_archive_url(&self) -> (url: &str)
        ensures
            url@ == self@.phrack_archive_url,
    {
        self.phrack_archive_url.as_str()
    }

    /// The value stored under `key`.
    pub fn get_value(&self, key: &ConfigKey) -> (value: String)
        ensures
            value@ == self@.value(*key),
    {
        match key {
            ConfigKey::DownloadPath => self.download_path.clone(),
            ConfigKey::PhrackArchiveUrl => self.phrack_archive_url.clone(),
        }
    }

    /// Stores `value` under `key` and leaves the other setting as it was.
    pub fn set_value(&mut self, key: &ConfigKey, value: &str)
        ensures
            final(self)@ == old(self)@.with(*key, value@),
    {
        match key {
            ConfigKey::DownloadPath => {
                self.download_path = value.to_owned();
            },
            ConfigKey::PhrackArchiveUrl => {
                self.phrack_archive_url = value.to_owned();
            },
        }
    }

    /// The rows of the settings table, name and value: the row of `key`, or
    /// one row for each setting where none is asked for.
    pub fn rows(&self, key: Option<ConfigKey>) -> (rows: Vec<(String, String)>)
        ensures
            rows_view(rows@) == table_rows(self@, key),
    {
        let mut rows: Vec<(String, String)> = Vec::new();
        match key {
            Some(k) => {
                rows.push((k.as_arg(), self.get_value(&k)));
            },
            None => {
                let keys = ConfigKey::all();
                let mut i: usize = 0;
                while i < keys.len()
                    invariant
                        i <= keys.len(),
                        keys@ == all_keys(),
                        rows@.len() == i,
                        forall|j: int|
                            0 <= j < i ==> (#[trigger] rows@[j]).0@ == key_name(keys@[j])
                                && rows@[j].1@ == self@.value(keys@[j]),
                    decreases keys.len() - i,
                {
                    rows.push((keys[i].as_arg(), self.get_value(&keys[i])));
                    i = i + 1;
                }
            },
        }
        assert(rows_view(rows@) =~= table_rows(self@, key));
        rows
    }
}

impl ConfigKey {
    /// The name of the setting on the command line.
    pub fn as_arg(&self) -> (name: String)
        ensures
            name@ == key_name(*self),
    {
        match self {
            ConfigKey::DownloadPath => "download-path".to_owned(),
            ConfigKey::PhrackArchiveUrl => "phrack-archive-url".to_owned(),
        }
    }

    /// The settings in the order in which they are listed.
    pub fn all() -> (keys: Vec<ConfigKey>)
        ensures
            keys@ == all_keys(),
    {
        let mut keys: Vec<ConfigKey> = Vec::new();
        keys.push(ConfigKey::DownloadPath);
        keys.push(ConfigKey::PhrackArchiveUrl);
        assert(keys@ =~= all_keys());
        keys
    }
}

} // verus!
