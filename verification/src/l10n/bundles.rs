//! The locale bundles that are part of the library.

use vstd::prelude::*;

verus! {

/// English (US) - the canonical source; IDs equal English text.
pub const EN_US: &'static str = r#"{
  "plan-mode": "plan-mode",
  "sandbox-type": "sandbox-type",
  "approval-needed-in": "approval-needed-in"
}"#;

/// Simplified Chinese.
pub const ZH_CN: &'static str = r#"{
  "plan-mode": "计划模式",
  "sandbox-type": "沙箱",
  "approval-needed-in": "{thread} 需要审批"
}"#;

/// In the English bundle every text is its ID.
pub proof fn law_english_texts_are_their_ids()
    ensures
        EN_US@ == "{\n  \""@ + "plan-mode"@ + "\": \""@ + "plan-mode"@ + "\",\n  \""@
            + "sandbox-type"@ + "\": \""@ + "sandbox-type"@ + "\",\n  \""@ + "approval-needed-in"@
            + "\": \""@ + "approval-needed-in"@ + "\"\n}"@,
{
    reveal_strlit(
        "{\n  \"plan-mode\": \"plan-mode\",\n  \"sandbox-type\": \"sandbox-type\",\n  \"approval-needed-in\": \"approval-needed-in\"\n}",
    );
    reveal_strlit("{\n  \"");
    reveal_strlit("\": \"");
    reveal_strlit("\",\n  \"");
    reveal_strlit("\"\n}");
    reveal_strlit("plan-mode");
    reveal_strlit("sandbox-type");
    reveal_strlit("approval-needed-in");
    assert(EN_US@ =~= "{\n  \""@ + "plan-mode"@ + "\": \""@ + "plan-mode"@ + "\",\n  \""@
        + "sandbox-type"@ + "\": \""@ + "sandbox-type"@ + "\",\n  \""@ + "approval-needed-in"@
        + "\": \""@ + "approval-needed-in"@ + "\"\n}"@);
}

/// The Chinese bundle has a text for each ID of the English one, in the same order.
pub proof fn law_chinese_texts_are_for_the_same_ids()
    ensures
        ZH_CN@ == "{\n  \""@ + "plan-mode"@ + "\": \""@ + "计划模式"@ + "\",\n  \""@
            + "sandbox-type"@ + "\": \""@ + "沙箱"@ + "\",\n  \""@ + "approval-needed-in"@
            + "\": \""@ + "{thread} 需要审批"@ + "\"\n}"@,
{
    reveal_strlit(
        "{\n  \"plan-mode\": \"计划模式\",\n  \"sandbox-type\": \"沙箱\",\n  \"approval-needed-in\": \"{thread} 需要审批\"\n}",
    );
    reveal_strlit("{\n  \"");
    reveal_strlit("\": \"");
    reveal_strlit("\",\n  \"");
    reveal_strlit("\"\n}");
    reveal_strlit("plan-mode");
    reveal_strlit("sandbox-type");
    reveal_strlit("approval-needed-in");
    reveal_strlit("计划模式");
    reveal_strlit("沙箱");
    reveal_strlit("{thread} 需要审批");
    assert(ZH_CN@ =~= "{\n  \""@ + "plan-mode"@ + "\": \""@ + "计划模式"@ + "\",\n  \""@
        + "sandbox-type"@ + "\": \""@ + "沙箱"@ + "\",\n  \""@ + "approval-needed-in"@
        + "\": \""@ + "{thread} 需要审批"@ + "\"\n}"@);
}

} // verus!
