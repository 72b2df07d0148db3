//! Changing the settings of a running service.
use vstd::prelude::*;

use crate::number::{decimal, decimal_chars};
use crate::text::{push_all, push_text, same_text, to_chars, to_text};

verus! {

/// The longest time between two scans: a week.
pub const MAX_SCAN_INTERVAL: u64 = 604_800;

pub open spec fn schedule_of(seconds: u64) -> u64 {
    if seconds > MAX_SCAN_INTERVAL {
        MAX_SCAN_INTERVAL
    } else {
        seconds
    }
}

/// The time between two scans that a request for so many seconds gets.
pub fn schedule_seconds(requested: u64) -> (r: u64)
    ensures
        r == schedule_of(requested),
{
    if requested > MAX_SCAN_INTERVAL {
        MAX_SCAN_INTERVAL
    } else {
        requested
    }
}

pub open spec fn schedule_text(seconds: u64) -> Seq<char> {
    if seconds == 0 {
        "已关闭定时扫描"@
    } else {
        "定时扫描间隔已设为 "@ + decimal((seconds / 60) as nat) + " 分钟"@
    }
}

/// What is said of a new time between two scans.
pub fn schedule_message(seconds: u64) -> (r: String)
    ensures
        r@ == schedule_text(seconds),
{
    if seconds == 0 {
        return "已关闭定时扫描".to_string();
    }
    let mut out = to_chars("定时扫描间隔已设为 ");
    let d = decimal_chars(seconds / 60);
    push_all(&mut out, d.as_slice());
    push_text(&mut out, " 分钟");
    to_text(out.as_slice())
}

/// What an option is called.
pub open spec fn label_text(key: Seq<char>) -> Seq<char> {
    if key == "embed_external_fonts"@ {
        "嵌入外部字体"@
    } else if key == "embed_system_fonts"@ {
        "嵌入系统字体"@
    } else if key == "include_ascii"@ {
        "保留 ASCII"@
    } else if key == "multi_weight"@ {
        "多字重"@
    } else if key == "randomize_font_names"@ {
        "随机字体名"@
    } else if key == "draw_subset"@ {
        "绘图字体"@
    } else if key == "full_font_embed"@ {
        "完整嵌入"@
    } else if key == "fallback_full_font_embed"@ {
        "失败回退完整嵌入"@
    } else if key == "variable_fonts"@ {
        "可变字体"@
    } else {
        "处理选项"@
    }
}

pub fn option_label(key: &str) -> (r: &'static str)
    ensures
        r@ == label_text(key@),
{
    if same_text(key, "embed_external_fonts") {
        "嵌入外部字体"
    } else if same_text(key, "embed_system_fonts") {
        "嵌入系统字体"
    } else if same_text(key, "include_ascii") {
        "保留 ASCII"
    } else if same_text(key, "multi_weight") {
        "多字重"
    } else if same_text(key, "randomize_font_names") {
        "随机字体名"
    } else if same_text(key, "draw_subset") {
        "绘图字体"
    } else if same_text(key, "full_font_embed") {
        "完整嵌入"
    } else if same_text(key, "fallback_full_font_embed") {
        "失败回退完整嵌入"
    } else if same_text(key, "variable_fonts") {
        "可变字体"
    } else {
        "处理选项"
    }
}

pub open spec fn option_text(key: Seq<char>, value: bool) -> Seq<char> {
    "已"@ + (if value {
        "启用"@
    } else {
        "关闭"@
    }) + " "@ + label_text(key)
}

/// What is said of an option that was changed.
pub fn option_message(key: &str, value: bool) -> (r: String)
    ensures
        r@ == option_text(key@, value),
{
    let mut out = to_chars("已");
    if value {
        push_text(&mut out, "启用");
    } else {
        push_text(&mut out, "关闭");
    }
    push_text(&mut out, " ");
    push_text(&mut out, option_label(key));
    assert(out@ =~= option_text(key@, value));
    to_text(out.as_slice())
}

/// A time between two scans of up to a week is taken as it is asked for, and a
/// longer one is cut to a week.
pub proof fn law_schedule_up_to_a_week(seconds: u64)
    ensures
        seconds <= 7 * 24 * 60 * 60 ==> schedule_of(seconds) == seconds,
        seconds > 7 * 24 * 60 * 60 ==> schedule_of(seconds) == 7 * 24 * 60 * 60,
{
}

/// Every option has a label of its own, and setting it tells whether it was switched
/// on or off.
pub proof fn law_options_told(key: Seq<char>)
    ensures
        label_text("embed_external_fonts"@) == "嵌入外部字体"@,
        label_text("embed_system_fonts"@) == "嵌入系统字体"@,
        label_text("include_ascii"@) == "保留 ASCII"@,
        label_text("multi_weight"@) == "多字重"@,
        label_text("randomize_font_names"@) == "随机字体名"@,
        label_text("draw_subset"@) == "绘图字体"@,
        label_text("full_font_embed"@) == "完整嵌入"@,
        label_text("fallback_full_font_embed"@) == "失败回退完整嵌入"@,
        label_text("variable_fonts"@) == "可变字体"@,
        option_text(key, true) == "已"@ + "启用"@ + " "@ + label_text(key),
        option_text(key, false) == "已"@ + "关闭"@ + " "@ + label_text(key),
{
    reveal_strlit("embed_external_fonts");
    reveal_strlit("embed_system_fonts");
    reveal_strlit("include_ascii");
    reveal_strlit("multi_weight");
    reveal_strlit("randomize_font_names");
    reveal_strlit("draw_subset");
    reveal_strlit("full_font_embed");
    reveal_strlit("fallback_full_font_embed");
    reveal_strlit("variable_fonts");
    assert("embed_external_fonts"@[6] == 'e' && "embed_system_fonts"@[6] == 's');
    assert("embed_external_fonts"@[0] == 'e' && "embed_system_fonts"@[0] == 'e');
    assert("include_ascii"@[0] == 'i' && "multi_weight"@[0] == 'm');
    assert("randomize_font_names"@[0] == 'r' && "draw_subset"@[0] == 'd');
    assert("full_font_embed"@[1] == 'u' && "fallback_full_font_embed"@[1] == 'a');
    assert("full_font_embed"@[0] == 'f' && "fallback_full_font_embed"@[0] == 'f');
    assert("variable_fonts"@[0] == 'v');
}

/// A schedule is told in minutes, and one of no time as switched off.
pub proof fn law_schedule_told(minutes: nat, rest: nat)
    requires
        0 < minutes * 60 + rest <= u64::MAX,
        rest < 60,
    ensures
        schedule_text((minutes * 60 + rest) as u64) == "定时扫描间隔已设为 "@ + decimal(minutes) + " 分钟"@,
        schedule_text(0) == "已关闭定时扫描"@,
{
}

} // verus!
