use novel_core::domain::HintKind;
use novel_core::hints::{
    entry_hint_kind, entry_hint_summary, entry_signals, fact_relevant, find_term, hint_id,
    hint_limit, is_stop, kind_rank, name_match, normalize, query_tokens, summary_keywords,
    thread_hint_summary, title_cores, NameMatch, StoryEntry, StoryEntryKind, match_basis,
    MatchBasis,
};

fn chars(s: &str) -> Vec<char> {
    s.chars().collect()
}

fn strings(v: &[Vec<char>]) -> Vec<String> {
    v.iter().map(|w| w.iter().collect()).collect()
}

fn entry(title: &str, aliases: &[&str], summary: &str) -> StoryEntry {
    StoryEntry {
        kind: StoryEntryKind::Character,
        title: title.into(),
        aliases: aliases.iter().map(|a| a.to_string()).collect(),
        summary: summary.into(),
    }
}

#[test]
fn normalization_lowers_and_plains_blanks() {
    let n = normalize(&chars("Ab\u{3000}C\u{a0}d"));
    assert_eq!(n.iter().collect::<String>(), "ab c d");
    let hay = normalize(&chars("林晚走进雾港"));
    assert_eq!(find_term(&hay, &chars("雾港")), Some(4));
    assert_eq!(find_term(&hay, &chars("雾")), None);
    assert_eq!(find_term(&normalize(&chars("Fog HARBOR")), &chars("harbor")), Some(4));
}

#[test]
fn stop_words_and_title_cores() {
    assert!(is_stop(&chars("然后")));
    assert!(is_stop(&chars("快到了")));
    assert!(!is_stop(&chars("灯塔")));
    assert_eq!(strings(&title_cores(&chars("雾中灯塔"))), vec!["灯塔", "中灯塔"]);
    assert_eq!(strings(&title_cores(&chars("守夜人"))), vec!["夜人"]);
    assert!(title_cores(&chars("林晚")).is_empty());
}

#[test]
fn description_keywords_are_ordered_longest_first() {
    let keywords = summary_keywords(
        &chars("终年被海雾罩住，里面还有旧王玺"),
        &chars("雾中灯塔"),
        &vec![],
    );
    assert_eq!(
        strings(&keywords),
        vec!["终年被海雾罩住", "里面还有旧王玺", "雾罩住", "旧王玺", "罩住", "王玺"]
    );
    let excluded = summary_keywords(&chars("灯塔，雾儿，守夜"), &chars("雾中灯塔"), &vec![chars("雾儿")]);
    assert_eq!(strings(&excluded), vec!["守夜"]);
}

#[test]
fn query_tokens_cover_windows_without_repeats() {
    let tokens = query_tokens(&chars("雾季快到了"));
    assert_eq!(
        strings(&tokens),
        vec!["雾季快到了", "雾季", "季快", "雾季快", "季快到", "雾季快到", "季快到了"]
    );
}

#[test]
fn signals_of_a_designed_entry() {
    let e = entry("雾中灯塔", &[], "终年被海雾罩住，里面还有旧王玺");
    let s = entry_signals("旧王玺还在匣中", "", &e, "", &vec![]).unwrap();
    assert_eq!(s.title, "雾中灯塔");
    assert_eq!(s.title_hit, None);
    assert!(s.core_hits.is_empty());
    assert_eq!(s.keyword_hits, vec![("旧王玺".to_string(), 0), ("王玺".to_string(), 1)]);
    assert_eq!(s.retrieved.as_deref(), Some("旧王玺"));

    let core = entry_signals("那座灯塔夜里忽然亮了", "", &e, "", &vec![]).unwrap();
    assert_eq!(core.core_hits, vec![("灯塔".to_string(), 2)]);
}

#[test]
fn signals_of_names_aliases_and_the_previous_paragraph() {
    let e = entry("沈雾", &[" 雾儿 ", "沈雾", "x"], "");
    let s = entry_signals("雾儿没有回头", "沈雾走进雾港", &e, "", &vec!["阿雾".into(), "雾儿".into()]).unwrap();
    assert_eq!(s.aliases, vec!["雾儿".to_string(), "阿雾".to_string()]);
    assert_eq!(s.alias_hits, vec![("雾儿".to_string(), 0)]);
    assert_eq!(s.title_hit, None);
    assert_eq!(s.lookback_title, Some(0));
    assert_eq!(s.lookback_alias, None);
    assert!(entry_signals("x", "", &entry(" 林 ", &[], ""), "", &vec![]).is_none());
    let canon = entry_signals("阿晚来了", "", &entry("林晚（阿晚）", &[], ""), "林晚", &vec!["阿晚".into()]).unwrap();
    assert_eq!(canon.title, "林晚");
    assert_eq!(canon.alias_hits, vec![("阿晚".to_string(), 0)]);
}

#[test]
fn hint_helpers() {
    assert_eq!(hint_id(3, "雾港"), "hint-3-雾港");
    assert_eq!(hint_limit(0), 1);
    assert_eq!(hint_limit(4), 4);
    assert_eq!(hint_limit(9), 6);
    assert_eq!(kind_rank(HintKind::CharacterState), 0);
    assert_eq!(kind_rank(HintKind::PlotHook), 9);
    assert_eq!(entry_hint_kind(StoryEntryKind::Foreshadow), (HintKind::OpenForeshadowing, "伏笔"));
    assert_eq!(entry_hint_summary(&entry("雾港", &[], "")), "雾港 · 预先设定");
    assert_eq!(entry_hint_summary(&entry("雾港", &[], "港口")), "港口");
    assert_eq!(thread_hint_summary("雾中灯塔", ""), "伏笔「雾中灯塔」仍未兑现");
    assert_eq!(
        name_match("沈雾走进了雾港", "沈雾", &vec!["雾儿".into()]),
        NameMatch::Name
    );
    assert_eq!(name_match("雾儿没有回头", "沈雾", &vec!["雾儿".into()]), NameMatch::Alias);
    assert_eq!(name_match("夜晚的海面", "沈雾", &vec![]), NameMatch::Absent);
    assert!(fact_relevant("潮下城禁令", "禁令", "x"));
    assert!(!fact_relevant("夜晚", "禁令", "火"));
}

#[test]
fn match_basis_falls_back_in_order() {
    let e = entry("林晚", &["雾儿"], "雾港来的刀客");
    let current = entry_signals("林晚走进雾港", "", &e, "", &vec![]).unwrap();
    assert_eq!(match_basis(&current), MatchBasis::Current);
    let lookback = entry_signals("她没有回头", "林晚走进雾港", &e, "", &vec![]).unwrap();
    assert_eq!(match_basis(&lookback), MatchBasis::LookbackTitle(0));
    let alias = entry_signals("她没有回头", "雾儿走了", &e, "", &vec![]).unwrap();
    assert_eq!(match_basis(&alias), MatchBasis::LookbackAlias("雾儿".to_string()));
    let nothing = entry_signals("夜晚的海面", "", &e, "", &vec![]).unwrap();
    assert_eq!(match_basis(&nothing), MatchBasis::Nothing);
}
