use phrack_downloader::config::{load_config, Config, ConfigKey};
use phrack_downloader::exit_code::ExitCode;
use phrack_downloader::phrack_downloader_error::PhrackDownloaderError;
use phrack_downloader::text::IntErrorKind;

#[test]
fn default_settings_hang_below_the_home_directory() {
    let config = load_config("/home/reader").unwrap();
    assert_eq!(
        config.get_value(&ConfigKey::DownloadPath),
        "/home/reader/.config/phrack-downloader/issues/"
    );
    assert_eq!(config.get_value(&ConfigKey::PhrackArchiveUrl), "https://archives.phrack.org");
    assert_eq!(config.download_path(), "/home/reader/.config/phrack-downloader/issues/");
    assert_eq!(config.phrack_archive_url(), "https://archives.phrack.org");
}

#[test]
fn settings_hold_what_they_are_given() {
    let config = Config::new("/data".to_string(), "http://mirror".to_string());
    assert_eq!(config.get_value(&ConfigKey::DownloadPath), "/data");
    assert_eq!(config.get_value(&ConfigKey::PhrackArchiveUrl), "http://mirror");
}

#[test]
fn set_value_changes_one_setting() {
    let mut config = Config::new("/data".to_string(), "http://mirror".to_string());
    config.set_value(&ConfigKey::DownloadPath, "/elsewhere");
    assert_eq!(config.get_value(&ConfigKey::DownloadPath), "/elsewhere");
    assert_eq!(config.get_value(&ConfigKey::PhrackArchiveUrl), "http://mirror");
    config.set_value(&ConfigKey::PhrackArchiveUrl, "http://other");
    assert_eq!(config.get_value(&ConfigKey::DownloadPath), "/elsewhere");
    assert_eq!(config.get_value(&ConfigKey::PhrackArchiveUrl), "http://other");
}

#[test]
fn set_value_twice_keeps_the_last() {
    let mut config = Config::new("/a".to_string(), "u".to_string());
    config.set_value(&ConfigKey::DownloadPath, "/b");
    config.set_value(&ConfigKey::DownloadPath, "");
    assert_eq!(config.get_value(&ConfigKey::DownloadPath), "");
}

#[test]
fn keys_have_their_command_line_names() {
    assert_eq!(ConfigKey::DownloadPath.as_arg(), "download-path");
    assert_eq!(ConfigKey::PhrackArchiveUrl.as_arg(), "phrack-archive-url");
    assert_eq!(ConfigKey::all(), vec![ConfigKey::DownloadPath, ConfigKey::PhrackArchiveUrl]);
}

#[test]
fn table_of_one_setting() {
    let config = Config::new("/data".to_string(), "http://mirror".to_string());
    assert_eq!(
        config.rows(Some(ConfigKey::PhrackArchiveUrl)),
        vec![("phrack-archive-url".to_string(), "http://mirror".to_string())]
    );
}

#[test]
fn table_of_all_settings() {
    let config = Config::new("/data".to_string(), "http://mirror".to_string());
    assert_eq!(
        config.rows(None),
        vec![
            ("download-path".to_string(), "/data".to_string()),
            ("phrack-archive-url".to_string(), "http://mirror".to_string()),
        ]
    );
}

#[test]
fn exit_codes() {
    assert_eq!(ExitCode::Success.as_i32(), 0);
    assert_eq!(ExitCode::GenericError.as_i32(), 1);
    assert_eq!(ExitCode::for_error(&PhrackDownloaderError::Unknown), ExitCode::GenericError);
    assert_eq!(
        ExitCode::for_error(&PhrackDownloaderError::Reqwest("no route".to_string())),
        ExitCode::GenericError
    );
    assert_eq!(
        ExitCode::for_error(&PhrackDownloaderError::ParseInt(IntErrorKind::Empty)),
        ExitCode::GenericError
    );
}

#[test]
fn errors_have_their_lines() {
    assert_eq!(
        PhrackDownloaderError::Reqwest("connection refused".to_string()).message(),
        "HTTP error: connection refused"
    );
    assert_eq!(
        PhrackDownloaderError::Io("permission denied".to_string()).message(),
        "IO error: permission denied"
    );
    assert_eq!(PhrackDownloaderError::Unknown.message(), "unknown error");
    assert_eq!(
        PhrackDownloaderError::ParseInt(IntErrorKind::Empty).message(),
        "Parse int error: cannot parse integer from empty string"
    );
    assert_eq!(
        PhrackDownloaderError::ParseInt(IntErrorKind::InvalidDigit).message(),
        "Parse int error: invalid digit found in string"
    );
    assert_eq!(
        PhrackDownloaderError::ParseInt(IntErrorKind::PosOverflow).message(),
        "Parse int error: number too large to fit in target type"
    );
}

#[test]
fn parse_errors_read_like_those_of_the_standard_library() {
    let empty = "".parse::<u32>().unwrap_err().to_string();
    let invalid = "x".parse::<u32>().unwrap_err().to_string();
    let large = "4294967296".parse::<u32>().unwrap_err().to_string();
    assert_eq!(
        PhrackDownloaderError::ParseInt(IntErrorKind::Empty).message(),
        format!("Parse int error: {}", empty)
    );
    assert_eq!(
        PhrackDownloaderError::ParseInt(IntErrorKind::InvalidDigit).message(),
        format!("Parse int error: {}", invalid)
    );
    assert_eq!(
        PhrackDownloaderError::ParseInt(IntErrorKind::PosOverflow).message(),
        format!("Parse int error: {}", large)
    );
}
