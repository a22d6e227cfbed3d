//! The vocabularies of keywords.

use ansible_core::keywords::{
    core_action, in_set, is_block_directive, is_play, is_play_directive, is_play_key,
    is_task_directive, legal_key, legal_keys, KeyContext, BASE, BLOCK_OWN, COLLECTION_SEARCH,
    CONDITIONAL, DELEGATABLE, DYNAMIC_INCLUDE, HANDLER_OWN, LOOP_CONTROL_KEYS, NOTIFIABLE, PLAY_OWN,
    RESERVED_TAGS, ROLE_METADATA_OWN, TAGGABLE, TASK_OWN,
};

#[test]
fn module_keys_are_not_directives() {
    assert!(!is_task_directive("debug"));
    assert!(!is_task_directive("command"));
    assert!(!is_task_directive("include_tasks"));
}

#[test]
fn known_directives_classify() {
    for k in ["when", "loop", "register", "become", "tags", "vars", "notify"] {
        assert!(is_task_directive(k), "{k} should be a task directive");
    }
    assert!(is_task_directive("with_items"));
    assert!(is_task_directive("async"));
    assert!(is_task_directive("local_action"));
}

#[test]
fn play_vs_task_scope() {
    assert!(is_play_directive("hosts"));
    assert!(!is_task_directive("hosts"));
    assert!(is_block_directive("block"));
    assert!(!is_play_directive("block"));
}

#[test]
fn play_detection() {
    assert!(is_play(&["hosts", "tasks"]));
    assert!(is_play(&["import_playbook"]));
    assert!(!is_play(&["include_tasks", "when"]));
}

#[test]
fn set_sizes_match_the_fattributes_oracle() {
    let count = |ctx, extra: &[&str]| {
        let mut all: Vec<&str> = [
            &BASE[..], &CONDITIONAL[..], &TAGGABLE[..], &COLLECTION_SEARCH[..], &DELEGATABLE[..],
            &NOTIFIABLE[..], &PLAY_OWN[..], &BLOCK_OWN[..], &TASK_OWN[..], &HANDLER_OWN[..],
            &ROLE_METADATA_OWN[..], &DYNAMIC_INCLUDE[..], &LOOP_CONTROL_KEYS[..],
        ]
        .concat();
        all.extend(extra);
        all.sort_unstable();
        all.dedup();
        all.into_iter().filter(|k| legal_key(ctx, k)).count()
    };
    assert_eq!(count(KeyContext::Play, &["user"]), 43);
    assert_eq!(count(KeyContext::Block, &[]), 31);
    assert_eq!(count(KeyContext::Task, &[]), 42);
    assert_eq!(count(KeyContext::Handler, &[]), 43);
    assert_eq!(count(KeyContext::RoleMetadata, &[]), 27);
    assert_eq!(count(KeyContext::DynamicInclude, &[]), 16);
    assert_eq!(count(KeyContext::DynamicHandlerInclude, &[]), 17);
    assert_eq!(count(KeyContext::LoopControl, &[]), 7);
}

#[test]
fn the_negative_space_is_where_the_diagnostics_live() {
    for k in ["when", "delegate_to", "delegate_facts", "notify", "loop", "register"] {
        assert!(!legal_key(KeyContext::Play, k), "{k} must be fatal on a play");
    }
    assert!(legal_key(KeyContext::Play, "user"));
    assert!(!legal_key(KeyContext::Task, "user"));

    for k in ["loop", "register", "action", "until", "listen"] {
        assert!(!legal_key(KeyContext::Block, k), "{k} must be fatal on a block");
    }
    assert!(legal_key(KeyContext::Block, "block"));

    assert!(legal_key(KeyContext::Handler, "listen"));
    assert!(!legal_key(KeyContext::Task, "listen"));

    for k in ["become", "delegate_to", "until", "changed_when", "retries", "async"] {
        assert!(
            !legal_key(KeyContext::DynamicInclude, k),
            "{k} must be invalid on include_tasks/include_role"
        );
    }
    assert!(legal_key(KeyContext::DynamicInclude, "when"));
    assert!(legal_key(KeyContext::DynamicHandlerInclude, "listen"));

    assert!(!legal_key(KeyContext::RoleMetadata, "when"));
    assert!(legal_key(KeyContext::RoleMetadata, "become"));
    assert!(legal_key(KeyContext::RoleMetadata, "galaxy_info"));

    assert!(!legal_key(KeyContext::LoopControl, "name"));
    assert!(legal_key(KeyContext::LoopControl, "loop_var"));
}

#[test]
fn raw_fattributes_quirks_are_legal() {
    for k in ["async", "async_val", "loop_with"] {
        assert!(legal_key(KeyContext::Task, k), "{k} is accepted by Ansible");
    }
}

#[test]
fn the_builtin_spellings_name_one_action() {
    assert_eq!(core_action("ansible.builtin.set_fact"), "set_fact");
    assert_eq!(core_action("ansible.legacy.copy"), "copy");
    assert_eq!(core_action("set_fact"), "set_fact");
    assert_eq!(core_action("community.general.set_fact"), "community.general.set_fact");
    assert_eq!(core_action("ansible.builtin."), "");
}

#[test]
fn every_spelling_of_import_playbook_marks_a_play() {
    assert!(is_play_key("hosts"));
    assert!(is_play_key("import_playbook"));
    assert!(is_play_key("ansible.builtin.import_playbook"));
    assert!(!is_play_key("tasks"));
    assert!(!is_play(&[]));
}

#[test]
fn a_key_is_legal_where_it_is_listed() {
    for ctx in [KeyContext::Play, KeyContext::Block, KeyContext::Task, KeyContext::LoopControl] {
        for key in legal_keys(ctx) {
            assert!(legal_key(ctx, key), "{key}");
        }
    }
    assert!(in_set(&RESERVED_TAGS, "tagged"));
    assert!(!in_set(&RESERVED_TAGS, "always"));
}

#[test]
fn a_handler_takes_every_key_of_a_task_and_one_more() {
    let task = legal_keys(KeyContext::Task);
    let handler = legal_keys(KeyContext::Handler);
    assert!(task.iter().all(|k| handler.contains(k)));
    assert!(handler.contains(&"listen") && !task.contains(&"listen"));
}

#[test]
fn the_keys_of_each_context_are_counted() {
    for (ctx, count) in [
        (KeyContext::Play, 43),
        (KeyContext::Block, 31),
        (KeyContext::Task, 42),
        (KeyContext::Handler, 43),
        (KeyContext::RoleMetadata, 27),
        (KeyContext::DynamicInclude, 16),
        (KeyContext::DynamicHandlerInclude, 17),
        (KeyContext::LoopControl, 7),
    ] {
        let mut keys = legal_keys(ctx);
        keys.sort();
        keys.dedup();
        assert_eq!(keys.len(), count, "{ctx:?}");
        assert!(keys.iter().all(|k| legal_key(ctx, k)), "{ctx:?}");
    }
}
