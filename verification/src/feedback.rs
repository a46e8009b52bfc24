//! Feedback memory: what the author's corrections and rejections of AI
//! continuations leave behind, and the preference rules that the next
//! continuation's system prompt carries.
use vstd::prelude::*;
use crate::domain::{PreferenceScope, PreferenceStatus, RejectionReason};
use crate::ids::{now_millis, PreferenceRuleId, ProposalId};
use crate::protocol::string_views;
use crate::text::{append_chars, append_str, chars_of, copy_string, decimal, decimal_chars, str_eq, string_of};

verus! {

/// A human correction of an AI text. `created_at_ms` is the creation instant
/// in milliseconds since the Unix epoch.
#[derive(Debug, Clone, PartialEq, Eq)]
pub struct CorrectionRecord {
    pub proposal_id: ProposalId,
    pub ai_text: String,
    pub human_text: String,
    pub diff_summary: String,
    pub context_excerpt: String,
    pub created_at_ms: i64,
}

/// A preference of the author that continuations follow. Instants are in
/// milliseconds since the Unix epoch.
#[derive(Debug, Clone, PartialEq, Eq)]
pub struct PreferenceRule {
    pub id: PreferenceRuleId,
    pub scope: PreferenceScope,
    pub rule: String,
    pub status: PreferenceStatus,
    pub evidence_proposals: Vec<ProposalId>,
    pub created_at_ms: i64,
    pub updated_at_ms: i64,
}

/// The summary of a correction: the character counts of both texts.
pub open spec fn diff_summary_text(ai: Seq<char>, human: Seq<char>) -> Seq<char> {
    "AI 文本 "@ + decimal(ai.len()) + " 字，人类文本 "@ + decimal(human.len()) + " 字"@
}

/// Summarizes a correction by the character counts of both texts.
pub fn summarize_diff(ai: &str, human: &str) -> (r: String)
    ensures
        r@ == diff_summary_text(ai@, human@),
{
    let mut v = chars_of("AI 文本 ");
    let a = decimal_chars(ai.unicode_len() as u64);
    append_chars(&mut v, a.as_slice());
    append_str(&mut v, " 字，人类文本 ");
    let h = decimal_chars(human.unicode_len() as u64);
    append_chars(&mut v, h.as_slice());
    append_str(&mut v, " 字");
    string_of(v.as_slice())
}

/// The correction an edit of an AI text makes, none when the text was not
/// changed. The record is stamped with the current time.
pub fn correction_from_edit(
    proposal_id: ProposalId,
    ai_text: &str,
    human_text: &str,
    context_excerpt: &str,
) -> (r: Option<CorrectionRecord>)
    ensures
        ai_text@ == human_text@ <==> r is None,
        r matches Some(c) ==> {
            &&& c.proposal_id == proposal_id
            &&& c.ai_text@ == ai_text@
            &&& c.human_text@ == human_text@
            &&& c.diff_summary@ == diff_summary_text(ai_text@, human_text@)
            &&& c.context_excerpt@ == context_excerpt@
        },
{
    if str_eq(ai_text, human_text) {
        return None;
    }
    Some(
        CorrectionRecord {
            proposal_id,
            ai_text: string_of(chars_of(ai_text).as_slice()),
            human_text: string_of(chars_of(human_text).as_slice()),
            diff_summary: summarize_diff(ai_text, human_text),
            context_excerpt: string_of(chars_of(context_excerpt).as_slice()),
            created_at_ms: now_millis(),
        },
    )
}

/// The rule a rejection reason stands for.
pub open spec fn rejection_rule_text(reason: RejectionReason) -> Seq<char> {
    match reason {
        RejectionReason::CanonError => "避免违反正史设定"@,
        RejectionReason::CharacterVoice => "保持人物口吻一致"@,
        RejectionReason::Pacing => "避免节奏过快或过慢"@,
        RejectionReason::Style => "遵循作者文风"@,
        RejectionReason::Fact => "避免事实错误"@,
        RejectionReason::Format => "遵循指定输出格式"@,
        RejectionReason::Other => "尊重作者明确拒绝"@,
    }
}

fn rule_text(reason: RejectionReason) -> (r: &'static str)
    ensures
        r@ == rejection_rule_text(reason),
{
    match reason {
        RejectionReason::CanonError => "避免违反正史设定",
        RejectionReason::CharacterVoice => "保持人物口吻一致",
        RejectionReason::Pacing => "避免节奏过快或过慢",
        RejectionReason::Style => "遵循作者文风",
        RejectionReason::Fact => "避免事实错误",
        RejectionReason::Format => "遵循指定输出格式",
        RejectionReason::Other => "尊重作者明确拒绝",
    }
}

/// The candidate rule a rejection produces, with the rejected proposal as
/// its evidence, a fresh identifier, and the current time as both instants.
pub fn rejection_rule(reason: RejectionReason, scope: PreferenceScope, evidence: ProposalId) -> (r:
    PreferenceRule)
    ensures
        r.scope == scope,
        r.rule@ == rejection_rule_text(reason),
        r.status == PreferenceStatus::Candidate,
        r.evidence_proposals@ == seq![evidence],
        r.created_at_ms == r.updated_at_ms,
{
    let now = now_millis();
    let mut evidence_proposals: Vec<ProposalId> = Vec::new();
    evidence_proposals.push(evidence);
    PreferenceRule {
        id: PreferenceRuleId::new(),
        scope,
        rule: string_of(chars_of(rule_text(reason)).as_slice()),
        status: PreferenceStatus::Candidate,
        evidence_proposals,
        created_at_ms: now,
        updated_at_ms: now,
    }
}

/// The texts of the rules that are not disabled, in order.
pub open spec fn active_rules(rules: Seq<PreferenceRule>) -> Seq<Seq<char>>
    decreases rules.len(),
{
    if rules.len() == 0 {
        seq![]
    } else {
        let rest = active_rules(rules.drop_last());
        if rules.last().status == PreferenceStatus::Disabled {
            rest
        } else {
            rest.push(rules.last().rule@)
        }
    }
}

/// The system prompt prefix that carries the author's preferences.
pub open spec fn preference_prefix(lines: Seq<Seq<char>>) -> Seq<char> {
    "你是网文续写助手，必须遵守给定设定。作者偏好：\n- "@ + crate::text::join(lines, "\n- "@)
}

proof fn lemma_contains_left(a: Seq<char>, b: Seq<char>, t: Seq<char>)
    requires
        crate::text::contains_seq(a, t),
    ensures
        crate::text::contains_seq(a + b, t),
{
    let i = choose|i: int| crate::text::matches_at(a, t, i);
    assert((a + b).subrange(i, i + t.len()) =~= a.subrange(i, i + t.len()));
    assert(crate::text::matches_at(a + b, t, i));
}

proof fn lemma_contains_right(a: Seq<char>, b: Seq<char>, t: Seq<char>)
    requires
        crate::text::contains_seq(b, t),
    ensures
        crate::text::contains_seq(a + b, t),
{
    let i = choose|i: int| crate::text::matches_at(b, t, i);
    assert((a + b).subrange(a.len() + i, a.len() + i + t.len()) =~= b.subrange(i, i + t.len()));
    assert(crate::text::matches_at(a + b, t, a.len() + i));
}

proof fn lemma_contains_self(t: Seq<char>)
    ensures
        crate::text::contains_seq(t, t),
{
    assert(t.subrange(0, t.len() as int) =~= t);
    assert(crate::text::matches_at(t, t, 0));
}

/// Each part of a joined text, with the separator before it, occurs in the
/// separator followed by the joined text.
proof fn lemma_join_holds_parts(parts: Seq<Seq<char>>, sep: Seq<char>, k: int)
    requires
        0 <= k < parts.len(),
    ensures
        crate::text::contains_seq(sep + crate::text::join(parts, sep), sep + parts[k]),
    decreases parts.len(),
{
    let j = crate::text::join(parts, sep);
    if parts.len() == 1 {
        assert(j == parts[0]);
        lemma_contains_self(sep + parts[0]);
    } else {
        let init = parts.drop_last();
        let ji = crate::text::join(init, sep);
        assert(j == ji + sep + parts.last());
        assert(sep + j =~= (sep + ji) + (sep + parts.last()));
        if k < parts.len() - 1 {
            lemma_join_holds_parts(init, sep, k);
            assert(init[k] == parts[k]);
            lemma_contains_left(sep + ji, sep + parts.last(), sep + parts[k]);
        } else {
            lemma_contains_self(sep + parts.last());
            lemma_contains_right(sep + ji, sep + parts.last(), sep + parts[k]);
        }
    }
}

proof fn lemma_active_rules_filter(rules: Seq<PreferenceRule>)
    ensures
        active_rules(rules) == rules.filter(|x: PreferenceRule| x.status != PreferenceStatus::Disabled).map_values(
            |x: PreferenceRule| x.rule@,
        ),
    decreases rules.len(),
{
    reveal(Seq::filter);
    if rules.len() > 0 {
        lemma_active_rules_filter(rules.drop_last());
        let f = rules.drop_last().filter(|x: PreferenceRule| x.status != PreferenceStatus::Disabled);
        if rules.last().status != PreferenceStatus::Disabled {
            assert(f.push(rules.last()).map_values(|x: PreferenceRule| x.rule@) =~= f.map_values(
                |x: PreferenceRule| x.rule@,
            ).push(rules.last().rule@));
        }
    }
}

/// The lines of the prompt prefix are the rules that are not disabled, in
/// order: the active rule texts are exactly the texts of the rules whose
/// status is candidate or confirmed, in their order; there are none only
/// when every rule is disabled; and the prefix holds each such rule as a
/// line of its own, after `"\n- "`.
pub proof fn lemma_prefix_lists_active(rules: Seq<PreferenceRule>)
    ensures
        active_rules(rules) == rules.filter(|x: PreferenceRule| x.status != PreferenceStatus::Disabled).map_values(
            |x: PreferenceRule| x.rule@,
        ),
        active_rules(rules).len() == 0 <==> forall|i: int|
            0 <= i < rules.len() ==> rules[i].status == PreferenceStatus::Disabled,
        forall|i: int|
            0 <= i < rules.len() && rules[i].status != PreferenceStatus::Disabled
                ==> crate::text::contains_seq(
                preference_prefix(active_rules(rules)),
                "\n- "@ + (#[trigger] rules[i]).rule@,
            ),
{
    lemma_active_rules_filter(rules);
    lemma_active_rules_index(rules);
    let a = active_rules(rules);
    let sep = "\n- "@;
    let head = "你是网文续写助手，必须遵守给定设定。作者偏好："@;
    reveal_strlit("\n- ");
    reveal_strlit("你是网文续写助手，必须遵守给定设定。作者偏好：");
    reveal_strlit("你是网文续写助手，必须遵守给定设定。作者偏好：\n- ");
    assert("你是网文续写助手，必须遵守给定设定。作者偏好：\n- "@ =~= head + sep);
    assert(preference_prefix(a) =~= head + (sep + crate::text::join(a, sep)));
    assert forall|i: int|
        0 <= i < rules.len() && rules[i].status != PreferenceStatus::Disabled implies crate::text::contains_seq(
        preference_prefix(a),
        sep + (#[trigger] rules[i]).rule@,
    ) by {
        let k = choose|k: int| 0 <= k < a.len() && a[k] == rules[i].rule@;
        lemma_join_holds_parts(a, sep, k);
        lemma_contains_right(head, sep + crate::text::join(a, sep), sep + a[k]);
    }
}

/// Every rule that is not disabled has its text among the active rules, and
/// nothing else is there.
proof fn lemma_active_rules_index(rules: Seq<PreferenceRule>)
    ensures
        forall|i: int|
            0 <= i < rules.len() && rules[i].status != PreferenceStatus::Disabled ==> exists|k: int|
                0 <= k < active_rules(rules).len() && active_rules(rules)[k] == (#[trigger] rules[i]).rule@,
        active_rules(rules).len() == 0 <==> forall|i: int|
            0 <= i < rules.len() ==> rules[i].status == PreferenceStatus::Disabled,
    decreases rules.len(),
{
    if rules.len() > 0 {
        let init = rules.drop_last();
        lemma_active_rules_index(init);
        let rest = active_rules(init);
        let a = active_rules(rules);
        assert forall|i: int|
            0 <= i < rules.len() && rules[i].status != PreferenceStatus::Disabled implies exists|k: int|
                0 <= k < a.len() && a[k] == (#[trigger] rules[i]).rule@ by {
            if i < rules.len() - 1 {
                assert(init[i] == rules[i]);
                let k = choose|k: int| 0 <= k < rest.len() && rest[k] == init[i].rule@;
                assert(a[k] == rest[k]);
            } else {
                assert(a[a.len() - 1] == rules[i].rule@);
            }
        }
        if a.len() == 0 {
            assert forall|i: int| 0 <= i < rules.len() implies rules[i].status
                == PreferenceStatus::Disabled by {
                if i < rules.len() - 1 {
                    assert(init[i] == rules[i]);
                }
            }
        }
        if forall|i: int| 0 <= i < rules.len() ==> rules[i].status == PreferenceStatus::Disabled {
            assert forall|i: int| 0 <= i < init.len() implies init[i].status
                == PreferenceStatus::Disabled by {
                assert(init[i] == rules[i]);
            }
            assert(rules[rules.len() - 1].status == PreferenceStatus::Disabled);
        }
    }
}

/// The system prompt prefix for the rules that are not disabled; none when
/// every rule is disabled or there are none.
pub fn prompt_prefix(rules: &Vec<PreferenceRule>) -> (r: Option<String>)
    ensures
        active_rules(rules@).len() == 0 ==> r is None,
        active_rules(rules@).len() > 0 ==> (r matches Some(p) && p@ == preference_prefix(
            active_rules(rules@),
        )),
        r is None <==> forall|i: int| 0 <= i < rules@.len() ==> rules@[i].status == PreferenceStatus::Disabled,
        r matches Some(p) ==> forall|i: int|
            0 <= i < rules@.len() && rules@[i].status != PreferenceStatus::Disabled
                ==> crate::text::contains_seq(p@, "\n- "@ + (#[trigger] rules@[i]).rule@),
{
    proof {
        lemma_prefix_lists_active(rules@);
    }
    let mut lines: Vec<Vec<char>> = Vec::new();
    let mut i: usize = 0;
    while i < rules.len()
        invariant
            i <= rules.len(),
            crate::hints::char_views(lines@) == active_rules(rules@.take(i as int)),
        decreases rules.len() - i,
    {
        proof {
            assert(rules@.take(i + 1).drop_last() =~= rules@.take(i as int));
            assert(rules@.take(i + 1).last() == rules@[i as int]);
        }
        if rules[i].status != PreferenceStatus::Disabled {
            let ghost before = crate::hints::char_views(lines@);
            let line = chars_of(rules[i].rule.as_str());
            lines.push(line);
            proof {
                assert(crate::hints::char_views(lines@) =~= before.push(rules@[i as int].rule@));
            }
        }
        i += 1;
    }
    assert(rules@.take(rules.len() as int) =~= rules@);
    if lines.len() == 0 {
        return None;
    }
    let sep = chars_of("\n- ");
    let joined = crate::text::join_chars(&lines, sep.as_slice());
    let mut v = chars_of("你是网文续写助手，必须遵守给定设定。作者偏好：\n- ");
    append_chars(&mut v, joined.as_slice());
    proof {
        assert(lines@.map_values(|p: Vec<char>| p@) =~= crate::hints::char_views(lines@));
    }
    Some(string_of(v.as_slice()))
}

} // verus!
