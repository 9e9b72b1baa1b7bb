use zmp::config::Config;
use zmp::decimal::{format_i32, format_usize, parse_i32, parse_usize};

#[test]
fn sqlite_path_points_into_the_data_directory() {
    let config = Config::new("/home/u/.local/share/zmp".to_string());
    assert_eq!(config.sqlite_path(false), "sqlite:////home/u/.local/share/zmp/zmp.db");
    assert_eq!(config.sqlite_path(true), "sqlite:////home/u/.local/share/zmp/zmp_dev.db");
}

#[test]
fn decimal_text_matches_std() {
    for n in [0i32, 7, -7, 2500, i32::MAX, i32::MIN] {
        assert_eq!(format_i32(n), n.to_string());
        assert_eq!(parse_i32(&n.to_string()), Some(n));
    }
    for n in [0usize, 9, 10, 123456, usize::MAX] {
        assert_eq!(format_usize(n), n.to_string());
        assert_eq!(parse_usize(&n.to_string()), Some(n));
    }
    for t in ["", "+", "-", "12a", " 1", "99999999999", "+5", "-0", "007"] {
        assert_eq!(parse_i32(t), t.parse::<i32>().ok());
        assert_eq!(parse_usize(t), t.parse::<usize>().ok());
    }
}
