use trash_rs::config::{
    choose_master_dir, conf_location, create_master_dir, directory_layout, fetch_config, find_conf, parse_yn, Config, ConfigAction,
    ConfigError, ConfigEvent,
};
use trash_rs::path::file_name;

fn b(x: &str) -> Vec<u8> {
    x.as_bytes().to_vec()
}

#[test]
fn config_for_a_master_directory() {
    let c = Config::new(b"/home/u/.trash-rs");
    assert_eq!(c.copy_ext, "copy");
    assert_eq!(c.dirs.master_dir, b("/home/u/.trash-rs"));
    assert_eq!(c.dirs.trash_dir, b("/home/u/.trash-rs/files"));
    assert_eq!(c.dirs.trash_info, b("/home/u/.trash-rs/info"));
    let c = Config::new(b"/t/");
    assert_eq!(c.dirs.trash_dir, b("/t/files"));
}

#[test]
fn config_and_layout_agree() {
    for md in ["/m", "rel/dir", "/m/"] {
        let c = Config::new(md.as_bytes());
        let l = directory_layout(md.as_bytes());
        assert_eq!(c.dirs.trash_dir, l.files);
        assert_eq!(c.dirs.trash_info, l.info);
        assert_eq!(file_name(&l.files), Some(b("files")));
        assert_eq!(file_name(&l.info), Some(b("info")));
        assert_eq!(file_name(&l.metadata), Some(b("metadata.info")));
    }
}

#[test]
fn layout_of_a_trash() {
    let l = directory_layout(b"/m");
    assert_eq!(l.files, b("/m/files"));
    assert_eq!(l.info, b("/m/info"));
    assert_eq!(l.metadata, b("/m/metadata.info"));
}

#[test]
fn configuration_file_location() {
    assert_eq!(conf_location(Some("/home/u/.config".as_bytes())).unwrap(), b("/home/u/.config/trash-rs/config.toml"));
    assert_eq!(conf_location(Some("/c/".as_bytes())).unwrap(), b("/c/trash-rs/config.toml"));
    assert!(matches!(conf_location(None), Err(ConfigError::ConfigDirNotFound)));
}

#[test]
fn master_directory_choice() {
    assert_eq!(choose_master_dir("\n", Some("/home/u".as_bytes())), Some(b("/home/u/.trash-rs")));
    assert_eq!(choose_master_dir("", Some("/home/u".as_bytes())), Some(b("/home/u/.trash-rs")));
    assert_eq!(choose_master_dir("\\n", Some("/h/".as_bytes())), Some(b("/h/.trash-rs")));
    assert_eq!(choose_master_dir("\n", None), None);
    assert_eq!(choose_master_dir("/tmp/t\n", None), Some(b("/tmp/t\n")));
    assert_eq!(choose_master_dir("/tmp/t", Some("/h".as_bytes())), Some(b("/tmp/t")));
}

#[test]
fn yes_answers() {
    assert!(parse_yn("y"));
    assert!(parse_yn("Y"));
    assert!(!parse_yn("y\n"));
    assert!(!parse_yn("yes"));
    assert!(!parse_yn(""));
}

#[test]
fn fetching_the_configuration() {
    assert!(matches!(fetch_config(&ConfigEvent::Opened), ConfigAction::Read));
    assert!(matches!(fetch_config(&ConfigEvent::NotFound), ConfigAction::Create));
    assert!(matches!(fetch_config(&ConfigEvent::OpenFailed), ConfigAction::AskToCreate));
    assert!(matches!(fetch_config(&ConfigEvent::Answered(true)), ConfigAction::Create));
    assert!(matches!(fetch_config(&ConfigEvent::Answered(false)), ConfigAction::Exit));
}

#[test]
fn configuration_file_in_the_users_directory() {
    if let Ok(p) = find_conf() {
        assert!(p.ends_with(b"/trash-rs/config.toml"));
    }
}

#[test]
fn typed_master_directory_is_kept() {
    assert_eq!(create_master_dir("/srv/trash"), Some(b("/srv/trash")));
    if let Some(d) = create_master_dir("\n") {
        assert!(d.ends_with(b".trash-rs"));
    }
}

#[test]
fn directories_that_are_not_utf8_are_kept() {
    let home: Vec<u8> = vec![b'/', b'h', 0xff];
    let md = choose_master_dir("\n", Some(home.as_slice())).unwrap();
    assert_eq!(md, vec![b'/', b'h', 0xff, b'/', b'.', b't', b'r', b'a', b's', b'h', b'-', b'r', b's']);
    let c = Config::new(&md);
    let mut files = md.clone();
    files.extend_from_slice(b"/files");
    assert_eq!(c.dirs.trash_dir, files);
    let conf: Vec<u8> = vec![b'/', 0xfe];
    assert_eq!(conf_location(Some(conf.as_slice())).unwrap(), vec![b'/', 0xfe, b'/', b't', b'r', b'a', b's', b'h', b'-', b'r', b's', b'/', b'c', b'o', b'n', b'f', b'i', b'g', b'.', b't', b'o', b'm', b'l']);
}
