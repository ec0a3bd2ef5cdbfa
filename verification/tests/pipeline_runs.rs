use std::io::Write;

use luna_installer::fs_model::Fs;
use luna_installer::manager::{
    InstallManager, PipelineEvent, install_steps, uninstall_steps,
};
use luna_installer::paths::AppPath;
use luna_installer::resolver::Platform;
use luna_installer::step::{FetchOutcome, World};
use luna_installer::ui_models::execution_result;

fn path(parts: &[&str]) -> AppPath {
    AppPath::from_parts(parts.iter().map(|s| s.to_string()).collect())
}

fn zip_with(entries: &[(&str, &[u8])]) -> Vec<u8> {
    let cursor = std::io::Cursor::new(Vec::new());
    let mut writer = zip::ZipWriter::new(cursor);
    let options = zip::write::SimpleFileOptions::default();
    for (name, data) in entries {
        if name.ends_with('/') {
            writer.add_directory(name.to_string(), options).unwrap();
        } else {
            writer.start_file(name.to_string(), options).unwrap();
            writer.write_all(data).unwrap();
        }
    }
    writer.finish().unwrap().into_inner()
}

fn world_with(fs: Fs, body: Vec<u8>) -> World {
    World {
        fs,
        platform: Platform::Linux,
        home: None,
        local_appdata: None,
        temp_root: path(&["tmp"]),
        fetch: FetchOutcome::Response { status: 200, body },
        sign_ok: true,
    }
}

fn pristine_target(bytes: &[u8]) -> Fs {
    let mut fs = Fs::new();
    let t = path(&["opt", "tidal", "resources"]);
    fs.make_dir_all(&t);
    fs.write_file(&t.join("app.asar"), bytes.to_vec());
    fs
}

fn manager_for(steps: Vec<luna_installer::manager::Step>) -> InstallManager {
    let mut m = InstallManager::new();
    for s in steps {
        m.add_step(s);
    }
    m
}

#[test]
fn install_on_pristine_target_backs_up_and_injects() {
    let original = b"the original archive bytes".to_vec();
    let payload = zip_with(&[("app/", b""), ("app/index.js", b"console"), ("data.bin", b"\x01\x02")]);
    let mut world = world_with(pristine_target(&original), payload.clone());
    let target = path(&["opt", "tidal", "resources"]);

    let mgr = manager_for(install_steps(&target, "https://example.invalid/luna.zip", false, true));
    let rep = mgr.run(&mut world);
    assert!(rep.success);

    let backup = world.fs.read_file(&target.join("original.asar")).unwrap();
    assert_eq!(backup, &original);
    assert!(world.fs.read_file(&target.join("app.asar")).is_none());
    assert!(!world.fs.exists_node(&target.join("app.asar")));
    let injected = world
        .fs
        .read_file(&target.join("app").join("app").join("index.js"))
        .unwrap();
    assert_eq!(injected, &b"console".to_vec());
    let data = world.fs.read_file(&target.join("app").join("data.bin")).unwrap();
    assert_eq!(data, &b"\x01\x02".to_vec());
    assert!(!world.fs.exists_node(&path(&["tmp", "TidaLunaInstaller"])));
}

#[test]
fn install_twice_keeps_one_backup_byte_identical() {
    let original = b"pristine upstream asar".to_vec();
    let payload = zip_with(&[("app/", b""), ("app/main.js", b"v1")]);
    let target = path(&["opt", "tidal", "resources"]);

    let mut world = world_with(pristine_target(&original), payload.clone());
    let first = manager_for(install_steps(&target, "https://example.invalid/luna.zip", false, true))
        .run(&mut world);
    assert!(first.success);

    let fs_after_first = world.fs;
    let payload2 = zip_with(&[("app/", b""), ("app/main.js", b"v2")]);
    let mut world2 = world_with(fs_after_first, payload2);
    let second = manager_for(install_steps(&target, "https://example.invalid/luna.zip", true, true))
        .run(&mut world2);
    assert!(second.success);

    let backup = world2.fs.read_file(&target.join("original.asar")).unwrap();
    assert_eq!(backup, &original);
    let injected = world2.fs.read_file(&target.join("app").join("app").join("main.js")).unwrap();
    assert_eq!(injected, &b"v2".to_vec());
}

#[test]
fn uninstall_restores_archive_and_removes_tree() {
    let original = b"upstream".to_vec();
    let mut fs = Fs::new();
    let target = path(&["opt", "tidal", "resources"]);
    fs.make_dir_all(&target.join("app"));
    fs.write_file(&target.join("original.asar"), original.clone());
    fs.write_file(&target.join("app").join("main.js"), b"mod".to_vec());
    let mut world = world_with(fs, Vec::new());

    let rep = manager_for(uninstall_steps(&target, true)).run(&mut world);
    assert!(rep.success);

    let restored = world.fs.read_file(&target.join("app.asar")).unwrap();
    assert_eq!(restored, &original);
    assert!(!world.fs.exists_node(&target.join("app")));
    assert!(!world.fs.exists_node(&target.join("app").join("main.js")));
    assert!(world.fs.exists_node(&target.join("original.asar")));
}

#[test]
fn html_error_page_fails_download_with_preview_and_no_archive() {
    let body = b"<html>err 502 bad gateway</html>\n:( sry!".to_vec();
    assert_eq!(body.len(), 40);
    let mut world = world_with(pristine_target(b"orig"), body);
    let target = path(&["opt", "tidal", "resources"]);

    let rep = manager_for(install_steps(&target, "https://example.invalid/luna.zip", false, true))
        .run(&mut world);
    assert!(!rep.success);

    let failure = rep
        .events
        .iter()
        .find_map(|e| match e {
            PipelineEvent::StepFinished { name, success, message } if !success => {
                Some((name.clone(), message.clone()))
            },
            _ => None,
        })
        .unwrap();
    assert_eq!(failure.0, "Download Luna");
    assert!(failure.1.contains("missing ZIP signature"));
    assert!(failure.1.contains("<html>err 502 bad gateway</html>.:( sry!"));
    assert!(failure.1.contains("https://example.invalid/luna.zip"));

    assert!(!world.fs.exists_node(&path(&["tmp", "TidaLunaInstaller", "Luna.zip"])));
    assert!(!world.fs.exists_node(&path(&["tmp", "TidaLunaInstaller", "Luna.zip.part"])));
}

#[test]
fn traversal_entry_aborts_extraction_and_writes_nothing_outside_root() {
    let payload = zip_with(&[("ok.txt", b"fine"), ("../../evil.sh", b"#!"), ("late.txt", b"x")]);
    let mut world = world_with(pristine_target(b"orig"), payload);
    let target = path(&["opt", "tidal", "resources"]);

    let rep = manager_for(install_steps(&target, "https://example.invalid/luna.zip", false, true))
        .run(&mut world);
    assert!(!rep.success);

    let failure = rep
        .events
        .iter()
        .find_map(|e| match e {
            PipelineEvent::StepFinished { name, success, message } if !success => {
                Some((name.clone(), message.clone()))
            },
            _ => None,
        })
        .unwrap();
    assert_eq!(failure.0, "Extract Luna");
    assert_eq!(failure.1, "Unsafe zip entry path rejected: ../../evil.sh");

    assert!(!world.fs.exists_node(&path(&["evil.sh"])));
    assert!(!world.fs.exists_node(&path(&["tmp", "evil.sh"])));
    assert!(world.fs.exists_node(&target.join("app.asar")));
    assert!(!world
        .fs
        .exists_node(&path(&["tmp", "TidaLunaInstaller", "LunaExtracted", "late.txt"])));
}

#[test]
fn failed_setup_stops_pipeline_before_download() {
    let mut world = world_with(Fs::new(), zip_with(&[("a", b"b")]));
    let target = path(&["missing"]);
    let rep = manager_for(install_steps(&target, "u", false, true)).run(&mut world);
    assert!(!rep.success);
    let names: Vec<String> = rep
        .events
        .iter()
        .filter_map(|e| match e {
            PipelineEvent::StepStarted { name } => Some(name.clone()),
            _ => None,
        })
        .collect();
    assert_eq!(names, vec!["Kill TIDAL", "Setup"]);
}

#[test]
fn event_protocol_wraps_each_step() {
    let original = b"orig".to_vec();
    let payload = zip_with(&[("app/", b""), ("app/a.js", b"x")]);
    let mut world = world_with(pristine_target(&original), payload);
    let target = path(&["opt", "tidal", "resources"]);
    let rep = manager_for(install_steps(&target, "u", false, true)).run(&mut world);
    assert!(rep.success);

    let mut open_step: Option<String> = None;
    let mut finished: Vec<String> = Vec::new();
    for e in rep.events.iter() {
        match e {
            PipelineEvent::StepStarted { name } => {
                assert!(open_step.is_none());
                open_step = Some(name.clone());
            },
            PipelineEvent::SubStep { step, .. } => {
                assert_eq!(open_step.as_ref().unwrap(), step);
            },
            PipelineEvent::StepFinished { name, success, .. } => {
                assert_eq!(open_step.as_ref().unwrap(), name);
                assert!(success);
                finished.push(name.clone());
                open_step = None;
            },
        }
    }
    assert!(open_step.is_none());
    assert_eq!(
        finished,
        vec![
            "Kill TIDAL",
            "Setup",
            "Download Luna",
            "Extract Luna",
            "Copy ASAR for Installation",
            "Insert Luna",
            "Sign TIDAL",
            "Launch TIDAL",
        ]
    );
}

#[test]
fn download_leaves_complete_archive_under_final_name() {
    let payload = zip_with(&[("f.txt", b"data")]);
    let mut world = world_with(pristine_target(b"orig"), payload.clone());
    let target = path(&["opt", "tidal", "resources"]);
    let mut mgr = InstallManager::new();
    for s in install_steps(&target, "u", false, true) {
        match s {
            luna_installer::manager::Step::Kill(_)
            | luna_installer::manager::Step::Setup(_)
            | luna_installer::manager::Step::Download(_) => mgr.add_step(s),
            _ => {},
        }
    }
    let rep = mgr.run(&mut world);
    assert!(rep.success);
    let written = world
        .fs
        .read_file(&path(&["tmp", "TidaLunaInstaller", "Luna.zip"]))
        .unwrap();
    assert_eq!(written, &payload);
    assert!(!world.fs.exists_node(&path(&["tmp", "TidaLunaInstaller", "Luna.zip.part"])));
}

#[test]
fn failed_sign_on_macos_halts_before_launch() {
    let original = b"orig".to_vec();
    let payload = zip_with(&[("app/", b""), ("app/a.js", b"x")]);
    let mut fs = Fs::new();
    let target = path(&["Applications", "TIDAL.app", "Contents", "Resources"]);
    fs.make_dir_all(&target);
    fs.write_file(&target.join("app.asar"), original);
    let mut world = World {
        fs,
        platform: Platform::MacOs,
        home: None,
        local_appdata: None,
        temp_root: path(&["tmp"]),
        fetch: FetchOutcome::Response { status: 200, body: payload },
        sign_ok: false,
    };
    let rep = manager_for(install_steps(&target, "u", false, true)).run(&mut world);
    assert!(!rep.success);
    let started: Vec<String> = rep
        .events
        .iter()
        .filter_map(|e| match e {
            PipelineEvent::StepStarted { name } => Some(name.clone()),
            _ => None,
        })
        .collect();
    assert!(started.contains(&"Sign TIDAL".to_string()));
    assert!(!started.contains(&"Launch TIDAL".to_string()));
}

#[test]
fn network_error_fails_download_step() {
    let mut world = World {
        fs: pristine_target(b"orig"),
        platform: Platform::Linux,
        home: None,
        local_appdata: None,
        temp_root: path(&["tmp"]),
        fetch: FetchOutcome::NetworkError { detail: "reset".to_string() },
        sign_ok: true,
    };
    let target = path(&["opt", "tidal", "resources"]);
    let rep = manager_for(install_steps(&target, "u", false, true)).run(&mut world);
    assert!(!rep.success);
}

#[test]
fn http_error_status_fails_download_step() {
    let payload = zip_with(&[("f", b"x")]);
    let mut world = world_with(pristine_target(b"orig"), payload);
    let target = path(&["opt", "tidal", "resources"]);
    let mut w = world;
    w.fetch = match w.fetch {
        FetchOutcome::Response { body, .. } => FetchOutcome::Response { status: 404, body },
        other => other,
    };
    let rep = manager_for(install_steps(&target, "u", false, true)).run(&mut w);
    assert!(!rep.success);
}

#[test]
fn empty_body_fails_download_step() {
    let mut world = world_with(pristine_target(b"orig"), Vec::new());
    let target = path(&["opt", "tidal", "resources"]);
    let rep = manager_for(install_steps(&target, "u", false, true)).run(&mut world);
    assert!(!rep.success);
}

#[test]
fn execution_result_renders_transcript() {
    let mut world = world_with(Fs::new(), Vec::new());
    let target = path(&["missing"]);
    let rep = manager_for(install_steps(&target, "u", false, true)).run(&mut world);
    let res = execution_result(&rep);
    assert_eq!(res.success, rep.success);
    assert_eq!(res.logs.len(), rep.events.len());
    assert_eq!(res.logs[0].message, "=== Kill TIDAL ===");
    assert!(!res.logs[0].is_substep);
    assert!(res.logs.iter().any(|l| l.message == "[Setup] Checking if Tidal is installed"
        && l.is_substep));
    assert!(res.logs.iter().any(|l| l.message.starts_with("Step failed: Setup - ")));
}

#[test]
fn oversized_entry_aborts_extraction() {
    let big = vec![0u8; (100 * 1024 * 1024) + 1];
    let payload = zip_with(&[("small.txt", b"ok"), ("huge.bin", &big)]);
    drop(big);
    let mut world = world_with(pristine_target(b"orig"), payload);
    let target = path(&["opt", "tidal", "resources"]);
    let rep = manager_for(install_steps(&target, "u", false, true)).run(&mut world);
    assert!(!rep.success);
    let failure = rep
        .events
        .iter()
        .find_map(|e| match e {
            PipelineEvent::StepFinished { success, message, .. } if !success => {
                Some(message.clone())
            },
            _ => None,
        })
        .unwrap();
    assert_eq!(failure, "Zip entry is too large (over 104857600 bytes): huge.bin");
    assert!(!world
        .fs
        .exists_node(&path(&["tmp", "TidaLunaInstaller", "LunaExtracted", "huge.bin"])));
    assert!(world
        .fs
        .exists_node(&path(&["tmp", "TidaLunaInstaller", "LunaExtracted", "small.txt"])));
}
