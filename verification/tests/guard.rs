use llm_monitor::guard::{detect_loop, shorten_unit};

#[test]
fn detects_simple_word_loop() {
    let tail = "前面正常的话。".to_string() + &"zai. ".repeat(20);
    let (unit, run) = detect_loop(&tail).expect("should detect");
    assert!(unit.contains("zai"));
    assert!(run >= 12);
}

#[test]
fn detects_alternating_loop() {
    let tail = "开始。".to_string() + &"还在吗？运行成功：".repeat(20);
    assert!(detect_loop(&tail).is_some());
}

#[test]
fn ignores_markdown_divider() {
    let tail = "标题\n─────\n内容\n─────\n标题2\n─────\n".repeat(30);
    assert!(detect_loop(&tail).is_none());
}

#[test]
fn ignores_normal_text() {
    let tail = "这是一段完全正常的中文回复，包含标点和内容，没有任何连续重复的短语。模型在解释 TTFT 的含义。".repeat(3);
    assert!(detect_loop(&tail).is_none());
}

#[test]
fn simple_loop_reports_unit_and_exact_run() {
    // segments: the prefix, then "zai." twenty times, then an empty one
    let tail = "前面正常的话。".to_string() + &"zai. ".repeat(20);
    assert_eq!(detect_loop(&tail), Some(("zai.".to_string(), 20)));
}

#[test]
fn alternating_loop_reports_merged_unit() {
    let tail = "开始。".to_string() + &"还在吗？运行成功：".repeat(20);
    assert_eq!(detect_loop(&tail), Some(("运行成功：还在吗？".to_string(), 19)));
}

#[test]
fn run_just_below_threshold_is_ignored() {
    // eleven equal segments: a run of 10 repeats plus the period 1 = 11
    let tail = "ok. ".repeat(11);
    assert!(detect_loop(&tail).is_none());
    let tail = "ok. ".repeat(12);
    assert_eq!(detect_loop(&tail), Some(("ok.".to_string(), 12)));
}

#[test]
fn period_two_loop_is_found() {
    let tail = "甲。乙。".repeat(6);
    assert_eq!(detect_loop(&tail), Some(("乙。".to_string(), 12)));
}

#[test]
fn period_five_loop_is_not_looked_for() {
    let tail = "a! b! c! d! e! ".repeat(10);
    assert!(detect_loop(&tail).is_none());
}

#[test]
fn divider_units_never_count() {
    assert!(detect_loop(&"---\n".repeat(40)).is_none());
    assert!(detect_loop(&"xX.\n".repeat(40)).is_none());
}

#[test]
fn long_units_never_count() {
    let unit = "a".repeat(49) + ".";
    assert!(detect_loop(&unit.repeat(20)).is_none());
    let unit = "a".repeat(47) + ".";
    assert_eq!(detect_loop(&unit.repeat(20)), Some((unit.clone(), 20)));
}

#[test]
fn empty_tail_has_no_loop() {
    assert!(detect_loop("").is_none());
}

#[test]
fn shorten_keeps_short_units() {
    assert_eq!(shorten_unit("  zai.  "), "zai.");
}

#[test]
fn shorten_cuts_long_units() {
    let unit = "一二三四五六七八九十".repeat(3);
    let expected: String = unit.chars().take(24).collect::<String>() + "…";
    assert_eq!(shorten_unit(&unit), expected);
    assert_eq!(shorten_unit(&"x".repeat(24)), "x".repeat(24));
}
