use ghfetch::avatar::{avatar_cache_key, avatar_raw_key, AvatarArt};
use ghfetch::probe::{
    disk_usage, gpu_from_lspci, gpu_from_system_profiler, gpu_from_wmic, mounted_disk,
    resolution_from_system_profiler, resolution_from_wmic, resolution_from_xrandr, shell_name,
    DiskSpace,
};
use ghfetch::renderer::strip_ansi;

fn expected_lspci(s: &str) -> String {
    for line in s.lines() {
        if line.contains("VGA") || line.contains("3D") || line.contains("Display") {
            let parts: Vec<&str> = line.split('"').collect();
            if parts.len() >= 4 {
                let gpu = parts[3].trim().to_string();
                if !gpu.is_empty() {
                    return gpu.trim_start_matches("Intel Corporation ").to_string();
                }
            }
        }
    }
    "Unknown".to_string()
}

fn expected_xrandr(s: &str) -> String {
    for line in s.lines() {
        if line.contains(" connected") && !line.contains("disconnected") {
            let parts: Vec<&str> = line.split_whitespace().collect();
            for (i, p) in parts.iter().enumerate() {
                if p.contains('x') && p.contains('+') {
                    let res = p.split('+').next().unwrap_or(p);
                    let prev = if i > 0 { parts[i - 1] } else { "" };
                    if prev.ends_with('x') || prev.parse::<i32>().is_ok() {
                        continue;
                    }
                    return res.to_string();
                }
            }
        }
    }
    "Unknown".to_string()
}

#[test]
fn lspci() {
    let out = "00:00.0 \"Host bridge\" \"Intel Corporation\" \"Xeon\"\n\
               00:02.0 \"VGA compatible controller\" \"Intel Corporation\" \"Intel Corporation Intel Corporation UHD Graphics 620\" -r07\n";
    assert_eq!(gpu_from_lspci(out), "Intel Corporation");
    let nv = "01:00.0 \"3D controller\" \" NVIDIA Corporation \" \"GA107M\"\n";
    assert_eq!(gpu_from_lspci(nv), "NVIDIA Corporation");
    let twice = "x \"Display\" \"Intel Corporation Intel Corporation Iris\"\n";
    assert_eq!(gpu_from_lspci(twice), "Iris");
    let vendor = "x \"Display\" \" \" \"Intel Corporation Intel Corporation Iris\"\n";
    assert_eq!(gpu_from_lspci(vendor), "Unknown");
    assert_eq!(gpu_from_lspci("01:00.0 \"VGA\" \"x\" \"  \"\n"), "x");
    assert_eq!(gpu_from_lspci("nothing"), "Unknown");
    assert_eq!(gpu_from_lspci("VGA \"a\" \"b\"\n"), "b");
    assert_eq!(gpu_from_lspci("VGA \"a\"\n3D \"a\" \" \" \"c\"\n"), "Unknown");
    for out in [out, nv, twice, vendor, "VGA \"a\" \"b\" \"c\"", "Display\"\"\"\"\"", ""] {
        assert_eq!(gpu_from_lspci(out), expected_lspci(out));
    }
}

#[test]
fn system_profiler() {
    let out = "Graphics/Displays:\n\n    Apple M1:\n\n      Chipset Model: Apple M1\n      Type: GPU\n        Resolution: 2560 x 1600 Retina\n";
    assert_eq!(gpu_from_system_profiler(out), "Apple M1");
    assert_eq!(resolution_from_system_profiler(out), "2560 x 1600 Retina");
    assert_eq!(gpu_from_system_profiler(""), "Unknown");
}

#[test]
fn wmic() {
    assert_eq!(gpu_from_wmic("Name\r\nNVIDIA GeForce RTX 3060\r\n"), "NVIDIA GeForce RTX 3060");
    assert_eq!(gpu_from_wmic("Name\r\n\r\nNAME\r\n"), "Unknown");
    assert_eq!(gpu_from_wmic("NVIDIA only header line"), "Unknown");
    let res = "CurrentHorizontalResolution  CurrentVerticalResolution\r\n1920                         1080\r\n";
    assert_eq!(resolution_from_wmic(res), "1920x1080");
    assert_eq!(resolution_from_wmic("h\n+0800 600\n"), "800x600");
    assert_eq!(resolution_from_wmic("h\nx 600\n"), "Unknown");
}

#[test]
fn xrandr() {
    let out = "Screen 0: minimum 320 x 200, current 3840 x 1080, maximum 16384 x 16384\n\
               eDP-1 connected primary 1920x1080+0+0 (normal left inverted right x axis y axis) 344mm x 194mm\n\
               HDMI-1 disconnected (normal left inverted right x axis y axis)\n";
    assert_eq!(resolution_from_xrandr(out), "1920x1080");
    let second = "DP-1 disconnected\nDP-2 connected 2560x1440+1920+0 (normal)\n";
    assert_eq!(resolution_from_xrandr(second), "2560x1440");
    assert_eq!(resolution_from_xrandr("DP-3 connected (normal)\n"), "Unknown");
    assert_eq!(resolution_from_xrandr("X connected 5 3x4+1\n"), "Unknown");
    for o in [
        out,
        second,
        "A connected x 3x4+1 9x9+2\n",
        "A connected -7 3x4+1 +x+\n",
        " connected x+ \u{2003}1x1+\n",
        "",
    ] {
        assert_eq!(resolution_from_xrandr(o), expected_xrandr(o), "{:?}", o);
    }
}

#[test]
fn shells() {
    assert_eq!(shell_name("/usr/bin/zsh"), "zsh");
    assert_eq!(shell_name("bash"), "bash");
    assert_eq!(shell_name(""), "");
    assert_eq!(shell_name("/bin/"), "");
}

#[test]
fn disks() {
    let disks = vec![
        DiskSpace { mount_point: "/boot/efi".to_string(), total_space: 10, available_space: 5 },
        DiskSpace { mount_point: "/home".to_string(), total_space: 500, available_space: 120 },
        DiskSpace { mount_point: "/".to_string(), total_space: 100, available_space: 40 },
    ];
    assert_eq!(mounted_disk("/home/u/src", &disks), Some(1));
    assert_eq!(disk_usage("/home/u/src", &disks), (380, 500));
    assert_eq!(disk_usage("/homework", &disks), (60, 100));
    assert_eq!(disk_usage("/home/", &disks), (380, 500));
    assert_eq!(disk_usage("//home/./u", &disks), (380, 500));
    assert_eq!(disk_usage("relative/path", &disks), (0, 0));
    assert_eq!(mounted_disk("relative", &disks), None);
}

#[test]
fn avatar_art_and_keys() {
    let pixels = vec![vec![(40u8, 40u8, 40u8), (255, 0, 10)], vec![(1, 2, 3), (4, 5, 6)]];
    let art = AvatarArt::from_pixels(&pixels, 2);
    assert_eq!(art.width, 4);
    assert_eq!(art.lines.len(), 2);
    assert_eq!(
        art.lines[0],
        "\x1b[48;2;40;40;40m  \x1b[0m\x1b[48;2;255;0;10m  \x1b[0m"
    );
    assert_eq!(strip_ansi(&art.lines[1]), "    ");
    assert_eq!(
        avatar_cache_key("https://avatars.githubusercontent.com/u/583231?v=4", 32),
        "avatar_v3_583231?v=4_32"
    );
    assert_eq!(avatar_cache_key("plain", 5), "avatar_v3_plain_5");
    assert_eq!(avatar_cache_key("ends/", 1), "avatar_v3__1");
    assert_eq!(avatar_raw_key("https://x/y"), "avatar_raw_https://x/y");
}
