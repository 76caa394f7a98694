use outlook_email::workspace::{renamed_purpose, workspace_key_purpose};

fn names(values: &[&str]) -> Vec<String> {
    values.iter().map(|v| v.to_string()).collect()
}

#[test]
fn default_purposes_count_up_past_custom_ones() {
    assert_eq!(workspace_key_purpose("", &[]), "密钥_1");
    assert_eq!(workspace_key_purpose("   ", &names(&["密钥_1"])), "密钥_2");
    assert_eq!(workspace_key_purpose(" 自定义用途 ", &names(&["密钥_1", "密钥_2"])), "自定义用途");
    assert_eq!(workspace_key_purpose("", &names(&["密钥_1", "密钥_2", "自定义用途"])), "密钥_3");
}

#[test]
fn default_purpose_numbers_parse_like_u64() {
    assert_eq!(workspace_key_purpose("", &names(&["密钥_x", "密钥_+7", "other_9", "密钥_ 12"])), "密钥_8");
    assert_eq!(workspace_key_purpose("", &names(&["密钥_18446744073709551616"])), "密钥_1");
    assert_eq!(workspace_key_purpose("", &names(&["密钥_18446744073709551615"])), "密钥_0");
    assert_eq!(workspace_key_purpose("", &names(&["密钥_", "密钥_+"])), "密钥_1");
}

#[test]
fn renaming_keeps_the_purpose_when_blank() {
    assert_eq!(renamed_purpose("  更新后的用途 ", "旧用途"), "更新后的用途");
    assert_eq!(renamed_purpose(" \t", "旧用途"), "旧用途");
}
