use rtrash::cmd::RemoveArgs;
use rtrash::environment;
use rtrash::errors::TrashError;
use rtrash::gen_new_name;
use rtrash::history::{Command, History};
use rtrash::make_absolute;
use rtrash::mtab_parser::parse_mtab;
use rtrash::mv::Move;
use rtrash::ops::{empty, gen_out_path, get_files, remove};
use rtrash::os::OperatingSystem;
use rtrash::trash_dir::{get_trash_dir_for_file_linux, trash_dir};

#[test]
fn make_relative_path_absolute() {
    let abs_path = make_absolute("/home/brandon", "hello.txt");
    assert_eq!(abs_path, String::from("/home/brandon/hello.txt"))
}

#[test]
fn make_absolute_path_absolute() {
    let abs_path = make_absolute("/home/brandon", "/home/brandon/hello.txt");
    assert_eq!(abs_path, String::from("/home/brandon/hello.txt"))
}

#[test]
fn gen_new_name_relative() {
    let new_name = gen_new_name("file1.txt", 123456789);
    assert_eq!(new_name, "v1-123456789-file1.txt")
}

#[test]
fn gen_new_name_absolute() {
    let new_name = gen_new_name("/home/brandon/file1.txt", 123456789);
    assert_eq!(new_name, "v1-123456789-file1.txt")
}

#[test]
fn gen_new_name_zero_timestamp() {
    assert_eq!(gen_new_name("/a/b.txt", 0), "v1-0-b.txt");
}

#[test]
fn test_parse_mtab_file() {
    let content = "/dev/sda1 /mnt/ext4 ext4 rw,relatime 0 0\ntmpfs /mnt/tmpfs tmpfs rw,relatime 0 0\n";
    let mounted_drives = parse_mtab(content);
    assert_eq!(mounted_drives.len(), 2);
    assert_eq!(mounted_drives[0].device, "/dev/sda1");
    assert_eq!(mounted_drives[0].mount_point, "/mnt/ext4");
    assert_eq!(mounted_drives[0].file_system, "ext4");
    assert_eq!(mounted_drives[0].options, "rw,relatime");
    assert_eq!(mounted_drives[1].mount_point, "/mnt/tmpfs");
}

#[test]
fn test_parse_mtab_file_empty_file() {
    let mounted_drives = parse_mtab("");
    assert_eq!(mounted_drives.len(), 0);
}

#[test]
fn test_parse_mtab_file_ignore_comments() {
    let content = "/dev/sda1 /mnt/ext4 ext4 rw,relatime 0 0\n# This is a comment\ntmpfs /mnt/tmpfs tmpfs rw,relatime 0 0\n";
    let mounted_drives = parse_mtab(content);
    assert_eq!(mounted_drives.len(), 2);
}

#[test]
fn test_parse_mtab_file_tab_separated() {
    let content = "tmpfs\t/mnt/tmpfs\ttmpfs\trw 0 0\n";
    let mounted_drives = parse_mtab(content);
    assert_eq!(mounted_drives.len(), 1);
    assert_eq!(mounted_drives[0].mount_point, "/mnt/tmpfs");
    assert_eq!(mounted_drives[0].options, "rw");
}

#[test]
fn test_parse_mtab_file_short_lines_skipped() {
    let content = "one two three\n\n/dev/sda1 /mnt/ext4 ext4 rw 0 0\n";
    let mounted_drives = parse_mtab(content);
    assert_eq!(mounted_drives.len(), 1);
    assert_eq!(mounted_drives[0].mount_point, "/mnt/ext4");
}

#[test]
fn test_mounted_drives_works() {
    let content = "/dev/sda1 /mnt/ext4 ext4 rw,relatime 0 0\ntmpfs /mnt/tmpfs tmpfs rw,relatime 0 0\ntmpfs /mnt/tmpfs/submount tmpfs rw,relatime 0 0\n";
    let drives = parse_mtab(content);
    let home = "/home/someone";

    assert_eq!(
        "/mnt/tmpfs/.rtrash",
        get_trash_dir_for_file_linux("/mnt/tmpfs/hello.txt", &drives, home).unwrap()
    );
    assert_eq!(
        "/mnt/tmpfs/submount/.rtrash",
        get_trash_dir_for_file_linux("/mnt/tmpfs/submount/blahh/hello.txt", &drives, home)
            .unwrap()
    );
    assert_eq!(None, get_trash_dir_for_file_linux("/noexist", &drives, home));
}

#[test]
fn trash_dir_root_mount_has_no_double_slash() {
    let drives = parse_mtab("/dev/sda1 / ext4 rw 0 0\n");
    let picked = get_trash_dir_for_file_linux("/var/tmp/x", &drives, "/home/someone").unwrap();
    assert_eq!(picked, "/.rtrash");
}

#[test]
fn trash_dir_dispatches_per_platform() {
    let drives = parse_mtab("tmpfs /mnt/tmpfs tmpfs rw 0 0\n");
    let home = "/home/someone";
    assert_eq!(
        trash_dir("/mnt/tmpfs/a.txt", OperatingSystem::Linux, &drives, home),
        Ok(String::from("/mnt/tmpfs/.rtrash"))
    );
    assert_eq!(
        trash_dir("/var/a.txt", OperatingSystem::Linux, &drives, home),
        Err(TrashError::UnresolvableTrashLocation)
    );
    assert_eq!(
        trash_dir("/mnt/tmpfs/a.txt", OperatingSystem::MacOS, &drives, home),
        Ok(String::from("/home/someone/.rtrash"))
    );
    assert_eq!(
        trash_dir("/mnt/tmpfs/a.txt", OperatingSystem::Windows, &drives, home),
        Err(TrashError::UnsupportedEnvironment)
    );
    assert_eq!(
        trash_dir("/mnt/tmpfs/a.txt", OperatingSystem::Unknown, &drives, home),
        Err(TrashError::UnsupportedEnvironment)
    );
}

#[test]
fn verify_path() {
    let home = "/home/someone";
    let trash_root = environment::trash_dir(home);
    assert_eq!(trash_root, "/home/someone/.rtrash");
    let expected_path = String::from(home) + "/.rtrash/" + ".history";
    assert_eq!(expected_path, History::path(&trash_root));
}

#[test]
fn can_parse_new_history() {
    let _ = History::parse(&History::new().to_text()).unwrap();
}

#[test]
fn history_text_of_one_move() {
    let mut hist = History::new();
    remove(
        &mut hist,
        vec![Move::new("/home/u/a.txt", "/home/u/.rtrash/v1-1-a.txt")],
    );
    assert_eq!(hist.to_text(), "C\n/home/u/a.txt\n/home/u/.rtrash/v1-1-a.txt");
}

#[test]
fn history_round_trip_three_commands() {
    let mut hist = History::new();
    let mut c1 = Command::new();
    c1.add_file(Move::new("/a/one.txt", "/a/.rtrash/v1-5-one.txt"));
    c1.add_file(Move::new("/a/two two.txt", "/a/.rtrash/v1-5-two two.txt"));
    hist.add_command(c1);
    let c2 = Command::new();
    hist.add_command(c2);
    let mut c3 = Command::new();
    c3.add_file(Move::new("/b/three.txt", "/b/.rtrash/v1-9-three.txt"));
    hist.add_command(c3);

    let text = hist.to_text();
    let reloaded = History::parse(&text).unwrap();
    assert_eq!(reloaded, hist);
}

#[test]
fn history_round_trip_empty() {
    let hist = History::new();
    assert_eq!(hist.to_text(), "");
    let reloaded = History::parse("").unwrap();
    assert_eq!(reloaded, hist);
}

#[test]
fn history_parse_rejects_garbage() {
    assert_eq!(
        History::parse("not a history").unwrap_err(),
        TrashError::CorruptHistory
    );
    assert_eq!(History::parse("C\n/odd").unwrap_err(), TrashError::CorruptHistory);
    assert_eq!(
        History::parse("C\nrelative\npaths").unwrap_err(),
        TrashError::CorruptHistory
    );
}

#[test]
fn gen_out_path_picks_volume_trash() {
    let drives = parse_mtab("tmpfs /mnt/tmpfs tmpfs rw 0 0\n");
    let dest = gen_out_path(
        "/mnt/tmpfs/doc.txt",
        7,
        OperatingSystem::Linux,
        &drives,
        "/home/u",
    )
    .unwrap();
    assert_eq!(dest, "/mnt/tmpfs/.rtrash/v1-7-doc.txt");
}

#[test]
fn get_files_plans_every_input() {
    let drives = parse_mtab("/dev/sda1 / ext4 rw 0 0\ntmpfs /mnt/tmpfs tmpfs rw 0 0\n");
    let args = RemoveArgs::new(
        vec![String::from("hello.txt"), String::from("/mnt/tmpfs/doc.txt")],
        false,
    );
    let plan = get_files(&args, "/home/u", 7, OperatingSystem::Linux, &drives, "/home/u");
    assert_eq!(plan.len(), 2);
    let first = plan[0].as_ref().unwrap();
    assert_eq!(first.src, "/home/u/hello.txt");
    assert_eq!(first.dest, "/home/u/.rtrash/v1-7-hello.txt");
    let second = plan[1].as_ref().unwrap();
    assert_eq!(second.src, "/mnt/tmpfs/doc.txt");
    assert_eq!(second.dest, "/mnt/tmpfs/.rtrash/v1-7-doc.txt");
}

#[test]
fn get_files_reports_unresolvable_file_without_aborting_batch() {
    let drives = parse_mtab("tmpfs /mnt/tmpfs tmpfs rw 0 0\n");
    let args = RemoveArgs::new(
        vec![String::from("/var/a.txt"), String::from("/mnt/tmpfs/b.txt")],
        false,
    );
    assert!(!args.dry_run());
    let plan = get_files(&args, "/home/u", 1, OperatingSystem::Linux, &drives, "/opt/u");
    assert_eq!(plan[0], Err(TrashError::UnresolvableTrashLocation));
    let second = plan[1].as_ref().unwrap();
    assert_eq!(second.dest, "/mnt/tmpfs/.rtrash/v1-1-b.txt");
}

#[test]
fn dry_run_plans_twice_identically() {
    let drives = parse_mtab("tmpfs /mnt/tmpfs tmpfs rw 0 0\n");
    let args = RemoveArgs::new(vec![String::from("a.txt")], true);
    assert!(args.dry_run());
    let first = get_files(&args, "/mnt/tmpfs", 3, OperatingSystem::Linux, &drives, "/home/u");
    let second = get_files(&args, "/mnt/tmpfs", 3, OperatingSystem::Linux, &drives, "/home/u");
    assert_eq!(first, second);
    let real_args = RemoveArgs::new(vec![String::from("a.txt")], false);
    let third = get_files(&real_args, "/mnt/tmpfs", 3, OperatingSystem::Linux, &drives, "/home/u");
    assert_eq!(first, third);
}

#[test]
fn empty_spares_only_the_history_file() {
    let entries = vec![
        String::from("/home/u/.rtrash/v1-1-a.txt"),
        String::from("/home/u/.rtrash/.history"),
        String::from("/home/u/.rtrash/v1-2-b.txt"),
    ];
    let doomed = empty(&entries, "/home/u/.rtrash/.history");
    assert_eq!(
        doomed,
        vec![
            String::from("/home/u/.rtrash/v1-1-a.txt"),
            String::from("/home/u/.rtrash/v1-2-b.txt"),
        ]
    );
}

#[test]
fn empty_on_empty_trash_is_a_no_op() {
    let entries = vec![String::from("/home/u/.rtrash/.history")];
    let doomed = empty(&entries, "/home/u/.rtrash/.history");
    assert!(doomed.is_empty());
}

#[test]
fn remove_appends_one_command_per_batch() {
    let mut hist = History::new();
    remove(&mut hist, vec![Move::new("/a/x", "/a/.rtrash/v1-1-x")]);
    remove(&mut hist, vec![]);
    remove(
        &mut hist,
        vec![
            Move::new("/b/y", "/b/.rtrash/v1-2-y"),
            Move::new("/b/z", "/b/.rtrash/v1-2-z"),
        ],
    );
    let mut expected = History::new();
    let mut c1 = Command::new();
    c1.add_file(Move::new("/a/x", "/a/.rtrash/v1-1-x"));
    expected.add_command(c1);
    expected.add_command(Command::new());
    let mut c3 = Command::new();
    c3.add_file(Move::new("/b/y", "/b/.rtrash/v1-2-y"));
    c3.add_file(Move::new("/b/z", "/b/.rtrash/v1-2-z"));
    expected.add_command(c3);
    assert_eq!(hist, expected);
}
