use ingst::volumes::{free_space_from_df, mount_point_from_df_line, volumes_from_df, volumes_from_wmic};

const DF: &str = "Filesystem     1024-blocks      Used Available Capacity iused     ifree %iused  Mounted on
/dev/disk3s1s1   971350180  10251616 583386340     2%  404167 2917317520    0%   /
/dev/disk3s5     971350180 372151332 583386340    39% 3290211 2917317520    0%   /System/Volumes/Data
/dev/disk4s1      62504960  12345678  50159282    20%       1         0  100%   /Volumes/SD Card
/dev/disk5s1      31250000   1000000  30250000     4%       1         0  100%   /Volumes/Macintosh HD - Data
/dev/disk6s1       1000000    500000    500000    50%       1         0  100%   /Volumes/A7S
/dev/disk4s1      62504960  12345678  50159282    20%       1         0  100%   /Volumes/SD Card
";

#[test]
fn mount_points_keep_their_spaces() {
    let line = "/dev/disk4s1      62504960  12345678  50159282    20%       1         0  100%   /Volumes/SD Card";
    assert_eq!(mount_point_from_df_line(line).as_deref(), Some("/Volumes/SD Card"));
    assert_eq!(mount_point_from_df_line("too few fields here"), None);
    assert_eq!(mount_point_from_df_line("a b c d e f g h   "), None);
}

#[test]
fn df_volumes_are_listed_by_path_once_without_the_system_volume() {
    let vols = volumes_from_df(DF);
    let paths: Vec<&str> = vols.iter().map(|v| v.path.as_str()).collect();
    assert_eq!(paths, vec!["/", "/Volumes/A7S", "/Volumes/SD Card"]);
    assert_eq!(vols[0].name, "Root");
    assert!(!vols[0].is_removable);
    assert_eq!(vols[2].name, "SD Card");
    assert!(vols[2].is_removable);
    assert_eq!(vols[2].total_space, 62504960 * 1024);
    assert_eq!(vols[2].free_space, 50159282 * 1024);
}

#[test]
fn wmic_drives_are_read_in_order() {
    let out = "DeviceID  FreeSpace     Size          VolumeName\r\nC:        100000        500000        System\r\nE:        2000          4000\r\nbogus line here\r\n";
    let vols = volumes_from_wmic(out);
    assert_eq!(vols.len(), 2);
    assert_eq!(vols[0].path, "C:");
    assert_eq!(vols[0].name, "System");
    assert_eq!(vols[0].free_space, 100000);
    assert_eq!(vols[0].total_space, 500000);
    assert_eq!(vols[1].name, "E:", "a drive without a label is named by its id");
    assert!(vols[1].is_removable);
}

#[test]
fn free_space_is_the_available_column_in_bytes() {
    let out = "Filesystem 1024-blocks Used Available Capacity Mounted on\n/dev/disk4s1 62504960 12345678 50159282 20% /Volumes/SD\n";
    assert_eq!(free_space_from_df(out), Some(50159282 * 1024));
    assert_eq!(free_space_from_df("header only\n"), None);
    assert_eq!(free_space_from_df("h\n/dev/x 1 2 lots 4% /\n"), None);
}
