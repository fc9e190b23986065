//! Where the tools are looked for.
use savio::binaries::{
    app_dir, data_dir, discover, locate, locate_with_origin, Candidate, Environment, Folder, Origin,
    Platform, Search,
};
use std::path::PathBuf;

fn path_of(folder: &Folder) -> PathBuf {
    let mut path = PathBuf::from(&folder.base);
    for step in &folder.steps {
        path.push(step);
    }
    path
}

fn nothing() -> Environment {
    Environment {
        local_app_data: None,
        user_profile: None,
        home: None,
        xdg_data_home: None,
    }
}

fn everything() -> Environment {
    Environment {
        local_app_data: Some("/local".to_owned()),
        user_profile: Some("/profile".to_owned()),
        home: Some("/home/me".to_owned()),
        xdg_data_home: Some("/xdg".to_owned()),
    }
}

#[test]
fn tools_live_in_a_bin_subfolder_of_the_app_folder() {
    for platform in [Platform::Windows, Platform::MacOs, Platform::Unix] {
        for env in [everything(), nothing()] {
            let (Some(app), Some(data)) = (app_dir(platform, &env), data_dir(platform, &env)) else {
                continue;
            };
            let (app, data) = (path_of(&app), path_of(&data));
            assert_eq!(data.parent(), Some(app.as_path()));
            assert_eq!(data.file_name().and_then(|n| n.to_str()), Some("bin"));
        }
    }
}

fn at(path: &str, is_file: bool) -> Candidate {
    Candidate {
        path: path.to_owned(),
        is_file,
    }
}

fn search(portable: bool, system: bool, owned: bool) -> Search {
    Search {
        portable: Some(at("/app/tool", portable)),
        system: vec![at("/usr/local/bin/tool", false), at("/usr/bin/tool", system)],
        owned: Some(at("/data/bin/tool", owned)),
    }
}

#[test]
fn the_own_copy_is_the_last_resort() {
    let found = |p, s, o| locate_with_origin(&search(p, s, o));
    assert_eq!(
        found(true, true, true),
        Some(("/app/tool".to_owned(), Origin::Portable))
    );
    assert_eq!(
        found(false, true, true),
        Some(("/usr/bin/tool".to_owned(), Origin::System))
    );
    assert_eq!(
        found(false, false, true),
        Some(("/data/bin/tool".to_owned(), Origin::Owned))
    );
    assert_eq!(found(false, false, false), None);
    assert_eq!(locate(&search(false, true, false)).as_deref(), Some("/usr/bin/tool"));
}

#[test]
fn only_the_lack_of_the_downloader_is_an_error() {
    let there = search(false, true, false);
    let missing = search(false, false, false);
    let tools = discover("yt-dlp", &there, &missing, &there).unwrap();
    assert_eq!(tools.ytdlp, "/usr/bin/tool");
    assert_eq!(tools.ffmpeg, None);
    assert_eq!(tools.ffprobe.as_deref(), Some("/usr/bin/tool"));
    assert_eq!(
        discover("yt-dlp", &missing, &there, &there).unwrap_err(),
        "Не найден yt-dlp. Положите его рядом с Savio или установите так, чтобы он был доступен в PATH."
    );
}

#[test]
fn user_data_goes_where_each_platform_keeps_it() {
    let place = |platform, env: &Environment| app_dir(platform, env).map(|f| path_of(&f));
    let all = everything();
    assert_eq!(
        place(Platform::Windows, &all),
        Some(PathBuf::from("/local/Savio"))
    );
    assert_eq!(
        place(Platform::MacOs, &all),
        Some(PathBuf::from("/home/me/Library/Application Support/Savio"))
    );
    assert_eq!(
        place(Platform::Unix, &all),
        Some(PathBuf::from("/xdg/savio"))
    );
    let mut home = nothing();
    home.home = Some("/home/me".to_owned());
    assert_eq!(
        place(Platform::Unix, &home),
        Some(PathBuf::from("/home/me/.local/share/savio"))
    );
    for platform in [Platform::Windows, Platform::MacOs, Platform::Unix] {
        assert_eq!(place(platform, &nothing()), None);
    }
}
