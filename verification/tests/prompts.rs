use fox_tools::progress::{Progress, ProgressAction};
use fox_tools::prompts::{
    accepts_device, clean_path, confirms_flash, flash_intent_text, missing_file_text,
};

#[test]
fn paths_are_cleaned() {
    assert_eq!(clean_path(" \"C:\\a b.bin\" \r\n").as_deref(), Some("C:\\a b.bin"));
    assert_eq!(clean_path("'x.bin'\n").as_deref(), Some("x.bin"));
    assert_eq!(clean_path("\" x \"").as_deref(), Some(" x "));
    assert_eq!(clean_path("it's").as_deref(), Some("it's"));
    assert_eq!(clean_path("\n"), None);
    assert_eq!(clean_path("\"\"\n"), None);
    assert_eq!(clean_path(""), None);
}

#[test]
fn only_the_letter_confirms_a_flash() {
    for yes in ["y", "Y\n", "  y \r\n"] {
        assert!(confirms_flash(yes));
        assert!(accepts_device(yes));
    }
    for no in ["", "\n", "n", "yes", "yy", "是"] {
        assert!(!confirms_flash(no));
    }
}

#[test]
fn a_device_is_accepted_with_the_word_too() {
    assert!(accepts_device("yes\n") && accepts_device("YeS"));
    for no in ["", " ", "no", "ye", "yess", "y e s"] {
        assert!(!accepts_device(no));
    }
}

#[test]
fn flash_texts() {
    assert_eq!(missing_file_text("a.bin"), "固件文件 'a.bin' 未找到。");
    assert_eq!(flash_intent_text("a.bin", "COM3"), "即将将 'a.bin' 烧录到端口 'COM3' 上的设备。");
}

#[test]
fn the_bar_is_moved_while_it_is_shown() {
    let mut progress = Progress::new();
    assert!(matches!(progress.update(1), ProgressAction::Nothing));
    assert!(matches!(progress.verifying(), ProgressAction::Nothing));
    assert!(matches!(progress.finish(false), ProgressAction::Nothing));
    assert!(matches!(progress.init(10), ProgressAction::Open { len: 10 }));
    assert!(matches!(progress.update(3), ProgressAction::MoveTo { pos: 3 }));
    assert!(matches!(progress.verifying(), ProgressAction::Say { message: "正在验证..." }));
    assert!(matches!(progress.finish(false), ProgressAction::Finish { message: "完成" }));
    assert!(matches!(progress.update(4), ProgressAction::Nothing));
    progress.init(1);
    assert!(matches!(progress.finish(true), ProgressAction::Finish { message: "已跳过" }));
}
