use escape_normalizer::{
    after_install, sign_event_callback, HostCall, PatternRule, ReplacementError,
};
use regex::Regex;

fn rule() -> PatternRule {
    match PatternRule::new() {
        Ok(rule) => rule,
        Err(error) => panic!("the escape pattern did not compile: {:?}", error),
    }
}

fn buffers(lines: &[&str]) -> Vec<Vec<u8>> {
    lines.iter().map(|line| line.as_bytes().to_vec()).collect()
}

#[test]
fn sign_without_candidates_needs_no_host_call() {
    let lines = buffers(&["& chat test", "", "plain text"]);
    assert_eq!(sign_event_callback(&rule(), &lines), vec![]);
}

#[test]
fn empty_collection_needs_no_host_call() {
    assert_eq!(sign_event_callback(&rule(), &Vec::new()), vec![]);
}

#[test]
fn changed_lines_are_released_then_installed() {
    let lines = buffers(&["&aHello", "", "plain", "&&r"]);
    assert_eq!(
        sign_event_callback(&rule(), &lines),
        vec![
            HostCall::Release { index: 0 },
            HostCall::Install { index: 0, text: String::from("\u{a7}aHello") },
            HostCall::Release { index: 3 },
            HostCall::Install { index: 3, text: String::from("&r") },
        ]
    );
}

#[test]
fn each_changed_line_has_one_release_and_one_install() {
    let lines = buffers(&["&1", "two", "&3", "", "&5", "six & seven"]);
    let calls = sign_event_callback(&rule(), &lines);
    for index in 0..lines.len() {
        let about: Vec<&HostCall> = calls
            .iter()
            .filter(|call| match call {
                HostCall::Release { index: at } => *at == index,
                HostCall::Install { index: at, .. } => *at == index,
            })
            .collect();
        if index % 2 == 0 {
            assert_eq!(about.len(), 2);
            assert_eq!(*about[0], HostCall::Release { index });
            assert!(matches!(about[1], HostCall::Install { .. }));
        } else {
            assert!(about.is_empty());
        }
    }
    assert_eq!(calls.len(), 6);
    assert_eq!(calls[4], HostCall::Release { index: 4 });
    assert_eq!(calls[5], HostCall::Install { index: 4, text: String::from("\u{a7}5") });
}

#[test]
fn buffer_that_is_not_text_is_left_alone() {
    let lines = vec![vec![0xff, b'&', b'a'], b"&a".to_vec(), vec![b'&', b'a', 0xc3]];
    assert_eq!(
        sign_event_callback(&rule(), &lines),
        vec![
            HostCall::Release { index: 1 },
            HostCall::Install { index: 1, text: String::from("\u{a7}a") },
        ]
    );
}

#[test]
fn replacement_for_changed_buffer() {
    assert_eq!(rule().replacement_for(b"&cwarning"), Some(String::from("\u{a7}cwarning")));
    assert_eq!(rule().replacement_for("\u{a7}&".as_bytes()), Some(String::from("&")));
}

#[test]
fn replacement_for_text_beyond_ascii() {
    assert_eq!(
        rule().replacement_for("&agr\u{fc}n".as_bytes()),
        Some(String::from("\u{a7}agr\u{fc}n"))
    );
}

#[test]
fn no_replacement_for_unchanged_buffer() {
    assert_eq!(rule().replacement_for(b"cats & dogs"), None);
    assert_eq!(rule().replacement_for("\u{a7}a".as_bytes()), None);
}

#[test]
fn no_replacement_for_empty_buffer() {
    assert_eq!(rule().replacement_for(b""), None);
}

#[test]
fn no_replacement_for_invalid_utf8() {
    assert_eq!(rule().replacement_for(&[b'&', b'a', 0x80]), None);
}

#[test]
fn compiled_regex_becomes_rule() {
    match PatternRule::from_compiled(Regex::new("&x+")) {
        Ok(rule) => {
            assert_eq!(rule.pattern(), "&x+");
            assert_eq!(rule.transform("a&xxb"), "a\u{a7}b");
            assert_eq!(rule.transform("axxb"), "axxb");
        }
        Err(error) => panic!("{:?}", error),
    }
}

#[test]
fn compile_error_is_handed_on() {
    let refused = Regex::new("(");
    let cause = match &refused {
        Ok(_) => panic!("an unclosed group compiled"),
        Err(cause) => cause.clone(),
    };
    match PatternRule::from_compiled(refused) {
        Ok(_) => panic!("a rule was made from an error"),
        Err(error) => assert_eq!(error.cause, cause),
    }
}

/// Makes the calls on a collection of live buffers, as a host would. `None`
/// stands for an entry whose buffer has been released.
fn run(lines: &[Vec<u8>], calls: &[HostCall]) -> Vec<Option<Vec<u8>>> {
    let mut entries: Vec<Option<Vec<u8>>> = lines.iter().cloned().map(Some).collect();
    for call in calls {
        match call {
            HostCall::Release { index } => {
                assert!(entries[*index].is_some(), "release of a released buffer");
                entries[*index] = None;
            }
            HostCall::Install { index, text } => {
                assert!(entries[*index].is_none(), "install over a live buffer");
                entries[*index] = Some(text.as_bytes().to_vec());
            }
        }
    }
    entries
}

#[test]
fn running_the_calls_leaves_every_line_transformed() {
    let rule = rule();
    let mut lines = buffers(&["&6Shop", "", "buy & sell", "&&5 off", "\u{a7}& more", "&lgr\u{fc}n"]);
    lines.push(vec![b'&', b'a', 0xff]);
    let calls = sign_event_callback(&rule, &lines);
    let entries = run(&lines, &calls);
    assert_eq!(
        entries,
        vec![
            Some("\u{a7}6Shop".as_bytes().to_vec()),
            Some(Vec::new()),
            Some(b"buy & sell".to_vec()),
            Some(b"&5 off".to_vec()),
            Some(b"& more".to_vec()),
            Some("\u{a7}lgr\u{fc}n".as_bytes().to_vec()),
            Some(vec![b'&', b'a', 0xff]),
        ]
    );
    assert_eq!(calls.len(), 8);
}

#[test]
fn running_the_calls_a_second_time_changes_settled_lines_no_more() {
    let rule = rule();
    let lines = buffers(&["&6Shop", "buy & sell", "&lbold&r"]);
    let settled: Vec<Vec<u8>> = run(&lines, &sign_event_callback(&rule, &lines))
        .into_iter()
        .map(|entry| entry.unwrap())
        .collect();
    assert_eq!(sign_event_callback(&rule, &settled), vec![]);
}

#[test]
fn line_of_canonical_sequences_without_trigger_needs_no_host_call() {
    let lines = buffers(&["\u{a7}aHi \u{a7}R"]);
    assert_eq!(sign_event_callback(&rule(), &lines), vec![]);
    assert_eq!(rule().replacement_for("\u{a7}aHi \u{a7}R".as_bytes()), None);
}

#[test]
fn install_with_a_buffer_goes_on() {
    assert_eq!(after_install(0, true), Ok(()));
    assert_eq!(after_install(3, true), Ok(()));
}

#[test]
fn install_without_a_buffer_is_fatal() {
    assert_eq!(after_install(0, false), Err(ReplacementError::AllocationFailed { index: 0 }));
    assert_eq!(after_install(3, false), Err(ReplacementError::AllocationFailed { index: 3 }));
}

#[test]
fn refused_install_leaves_one_dead_entry_and_ends_the_run() {
    let lines = buffers(&["&1", "two", "&3"]);
    let calls = sign_event_callback(&rule(), &lines);
    let mut entries: Vec<Option<Vec<u8>>> = lines.iter().cloned().map(Some).collect();
    let mut ended = None;
    for call in &calls {
        match call {
            HostCall::Release { index } => entries[*index] = None,
            HostCall::Install { index, text } => {
                // The allocator has a buffer for the first entry only.
                match after_install(*index, *index == 0) {
                    Ok(()) => entries[*index] = Some(text.as_bytes().to_vec()),
                    Err(error) => {
                        ended = Some(error);
                        break;
                    }
                }
            }
        }
    }
    assert_eq!(ended, Some(ReplacementError::AllocationFailed { index: 2 }));
    assert_eq!(
        entries,
        vec![Some("\u{a7}1".as_bytes().to_vec()), Some(b"two".to_vec()), None]
    );
}
