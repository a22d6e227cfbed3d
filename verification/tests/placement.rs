//! Where keys and tasks may not stand.

use ansible_core::parse::Document;
use ansible_core::placement::{
    problems, Tier, ACTION_AND_LOCAL_ACTION, BLOCK_AS_HANDLER, DEAD_LOOP_CONTROL_RULE_ID,
    DISCARDED_DELEGATE_TO_RULE_ID, END_ROLE_HANDLER, END_ROLE_OUTSIDE, FLUSH_AS_HANDLER, HOSTS_EMPTY,
    HOSTS_NONE, HOSTS_SHAPE, LOOP_CONTROL_SHAPE, MALFORMED_TASK_ENTRY_RULE_ID,
    MISPLACED_IMPORT_PLAYBOOK_RULE_ID, NOT_A_MAPPING, NOT_A_PLAY, NO_MODULE, RULE_ID,
    SHADOWED_LOOP_RULE_ID, USER_AND_REMOTE_USER,
};

fn check(src: &str) -> Vec<String> {
    let nodes = Document::new(src.to_string()).parse().expect("valid yaml");
    problems(&nodes, src).into_iter().map(|p| p.message).collect()
}

#[test]
fn rescue_or_always_without_a_block_is_an_error() {
    assert_eq!(
        check("- hosts: web\n  tasks:\n    - rescue:\n        - debug: {msg: x}\n"),
        ["'rescue' keyword cannot be used without 'block'"]
    );
    assert_eq!(
        check("- hosts: web\n  tasks:\n    - always:\n        - debug: {msg: x}\n"),
        ["'always' keyword cannot be used without 'block'"]
    );
    assert!(check("- hosts: web\n  tasks:\n    - block:\n        - block:\n            - debug: {msg: x}\n").is_empty());
    assert!(check("- hosts: web\n  tasks:\n    - block:\n        - debug: {msg: b}\n      rescue:\n        - block:\n            - debug: {msg: r}\n").is_empty());
}

#[test]
fn row_7_reads_emptiness_the_way_python_does() {
    assert_eq!(
        check("- hosts: web\n  tasks:\n    - block: []\n      rescue:\n        - debug: {msg: r}\n"),
        ["'rescue' keyword cannot be used without 'block'"]
    );
    assert!(check("- hosts: web\n  tasks:\n    - rescue: []\n").is_empty());
    assert!(check("- hosts: web\n  tasks:\n    - always: []\n").is_empty());
    assert!(check("- hosts: web\n  tasks:\n    - block: []\n").is_empty());
    assert!(check("- hosts: web\n  tasks:\n    - rescue:\n").is_empty());
    assert!(check("- hosts: web\n  tasks:\n    - block:\n      rescue:\n        - debug: {msg: r}\n").is_empty());
}

#[test]
fn row_7_reports_rescue_first_regardless_of_written_order() {
    for src in [
        "- hosts: web\n  tasks:\n    - rescue:\n        - debug: {msg: r}\n      always:\n        - debug: {msg: a}\n",
        "- hosts: web\n  tasks:\n    - always:\n        - debug: {msg: a}\n      rescue:\n        - debug: {msg: r}\n",
    ] {
        assert_eq!(check(src), ["'rescue' keyword cannot be used without 'block'"]);
    }
}

#[test]
fn row_7_follows_the_last_of_a_duplicate_key() {
    assert_eq!(
        check("- hosts: web\n  tasks:\n    - block:\n        - debug: {msg: b}\n      block: []\n      rescue:\n        - debug: {msg: r}\n"),
        ["'rescue' keyword cannot be used without 'block'"]
    );
    assert!(check("- hosts: web\n  tasks:\n    - block: []\n      block:\n        - debug: {msg: b}\n      rescue:\n        - debug: {msg: r}\n").is_empty());
    assert!(check("- hosts: web\n  tasks:\n    - block:\n        - debug: {msg: b}\n      always:\n        - debug: {msg: a}\n      always: []\n").is_empty());
}

#[test]
fn the_task_rules_reach_inside_a_malformed_block() {
    assert_eq!(
        check("- hosts: web\n  tasks:\n    - rescue:\n        - import_tasks: f.yml\n          loop: [1]\n"),
        ["'rescue' keyword cannot be used without 'block'", NO_LOOP_TASKS]
    );
}

#[test]
fn a_block_nested_inside_a_handler_is_refused() {
    let handler = |body: &str| {
        format!("- hosts: web\n  tasks: []\n  handlers:\n    - name: h\n{body}")
    };
    assert_eq!(
        check(&handler("      block:\n        - block:\n            - debug: {msg: x}\n")),
        [BLOCK_AS_HANDLER]
    );
    assert_eq!(
        check(&handler("      block:\n        - debug: {msg: x}\n      rescue:\n        - block:\n            - debug: {msg: r}\n")),
        [BLOCK_AS_HANDLER]
    );
    assert_eq!(
        check(&handler("      block:\n        - debug: {msg: x}\n      always:\n        - block:\n            - debug: {msg: a}\n")),
        [BLOCK_AS_HANDLER]
    );
}

#[test]
fn row_1_stops_at_the_handler_list_and_at_the_other_containers() {
    assert!(check(
        "- hosts: web\n  tasks: []\n  handlers:\n    - name: h\n      block:\n        - debug: {msg: x}\n"
    )
    .is_empty());
    for key in ["tasks", "pre_tasks", "post_tasks"] {
        assert!(
            check(&format!(
                "- hosts: web\n  {key}:\n    - block:\n        - block:\n            - debug: {{msg: x}}\n"
            ))
            .is_empty(),
            "nested blocks are legal in {key}"
        );
    }
}

#[test]
fn row_1_reports_a_stack_of_nested_blocks_once() {
    assert_eq!(
        check("- hosts: web\n  tasks: []\n  handlers:\n    - name: h\n      block:\n        - block:\n            - block:\n                - debug: {msg: x}\n"),
        [BLOCK_AS_HANDLER]
    );
}

#[test]
fn row_1_is_a_miss_in_a_standalone_file() {
    assert!(check("- name: h\n  block:\n    - block:\n        - debug: {msg: x}\n").is_empty());
}

#[test]
fn a_role_include_in_a_handler_is_refused_in_every_core_spelling() {
    for action in [
        "include_role",
        "import_role",
        "ansible.builtin.include_role",
        "ansible.legacy.include_role",
        "ansible.builtin.import_role",
        "ansible.legacy.import_role",
    ] {
        assert_eq!(
            check(&format!(
                "- hosts: web\n  tasks: []\n  handlers:\n    - name: h\n      {action}: {{name: r}}\n"
            )),
            [format!("Using '{action}' as a handler is not supported.")],
            "for {action}"
        );
    }
}

#[test]
fn row_2_applies_at_both_handler_depths() {
    assert_eq!(
        check("- hosts: web\n  tasks: []\n  handlers:\n    - name: h\n      block:\n        - include_role: {name: r}\n"),
        ["Using 'include_role' as a handler is not supported."]
    );
}

#[test]
fn row_2_leaves_everything_else_alone() {
    assert!(check("- hosts: web\n  tasks:\n    - include_role: {name: r}\n").is_empty());
    assert!(check("- hosts: web\n  tasks:\n    - import_role: {name: r}\n").is_empty());
    assert!(check(
        "- hosts: web\n  tasks: []\n  handlers:\n    - name: h\n      include_tasks: f.yml\n"
    )
    .is_empty());
    assert!(check(
        "- hosts: web\n  tasks: []\n  handlers:\n    - name: h\n      community.general.include_role: {name: r}\n"
    )
    .is_empty());
}

#[test]
fn row_2_beats_the_loop_rules_on_the_same_task() {
    assert_eq!(
        check("- hosts: web\n  tasks: []\n  handlers:\n    - name: h\n      include_role: {name: r}\n      loop: [1]\n      with_items: [2]\n"),
        ["Using 'include_role' as a handler is not supported."]
    );
    assert_eq!(
        check("- hosts: web\n  tasks: []\n  handlers:\n    - name: h\n      import_role: {name: r}\n      loop: [1]\n"),
        ["Using 'import_role' as a handler is not supported."]
    );
}

#[test]
fn meta_end_role_and_flush_handlers_are_refused_as_handlers() {
    for (word, want) in [
        ("end_role", END_ROLE_HANDLER),
        ("flush_handlers", FLUSH_AS_HANDLER),
    ] {
        assert_eq!(
            check(&format!(
                "- hosts: web\n  tasks: []\n  handlers:\n    - name: h\n      meta: {word}\n"
            )),
            [want],
            "top-level {word}"
        );
        assert_eq!(
            check(&format!(
                "- hosts: web\n  tasks: []\n  handlers:\n    - name: h\n      block:\n        - meta: {word}\n"
            )),
            [want],
            "nested {word}"
        );
        assert_eq!(
            check(&format!(
                "- hosts: web\n  tasks: []\n  handlers:\n    - name: h\n      ansible.builtin.meta: {word}\n"
            )),
            [want],
            "FQCN {word}"
        );
    }
}

#[test]
fn meta_end_role_outside_a_role_is_an_error() {
    for key in ["pre_tasks", "tasks", "post_tasks"] {
        assert_eq!(
            check(&format!("- hosts: web\n  {key}:\n    - meta: end_role\n")),
            [END_ROLE_OUTSIDE],
            "in {key}"
        );
    }
    assert_eq!(
        check("- hosts: web\n  tasks:\n    - block:\n        - meta: end_role\n"),
        [END_ROLE_OUTSIDE]
    );
    assert_eq!(
        check("- hosts: web\n  roles: [r]\n  tasks:\n    - meta: end_role\n"),
        [END_ROLE_OUTSIDE],
        "a play's own tasks are outside its roles"
    );
}

#[test]
fn other_meta_words_are_left_alone() {
    for word in ["clear_facts", "noop", "flush_handlers", "end_play"] {
        assert!(
            check(&format!("- hosts: web\n  tasks:\n    - meta: {word}\n")).is_empty(),
            "meta: {word} in tasks"
        );
    }
    for word in ["clear_facts", "noop"] {
        assert!(
            check(&format!(
                "- hosts: web\n  tasks: []\n  handlers:\n    - name: h\n      meta: {word}\n"
            ))
            .is_empty(),
            "meta: {word} as a handler"
        );
    }
}

#[test]
fn the_position_rules_are_all_misses_in_a_standalone_file() {
    for body in [
        "- name: h\n  block:\n    - block:\n        - debug: {msg: x}\n",
        "- name: h\n  include_role: {name: r}\n",
        "- name: h\n  meta: end_role\n",
        "- name: h\n  meta: flush_handlers\n",
    ] {
        assert!(check(body).is_empty(), "should stay quiet: {body:?}");
    }
}

#[test]
fn user_and_remote_user_together_are_an_error() {
    assert_eq!(
        check("- hosts: web\n  user: alice\n  remote_user: bob\n  tasks: []\n"),
        ["both 'user' and 'remote_user' are set for this play. The use of 'user' is \
          deprecated, and should be removed"]
    );
    assert!(check("- hosts: web\n  user: alice\n  tasks: []\n").is_empty());
    assert!(check("- hosts: web\n  remote_user: bob\n  tasks: []\n").is_empty());
}

#[test]
fn action_and_local_action_are_mutually_exclusive() {
    assert_eq!(
        check("- hosts: web\n  tasks:\n    - action: debug msg=x\n      local_action: debug msg=y\n"),
        [ACTION_AND_LOCAL_ACTION]
    );
    assert_eq!(
        check("- hosts: web\n  tasks:\n    - action: debug msg=x\n      local_action: debug msg=y\n      loop: [1]\n      with_items: [2]\n"),
        [ACTION_AND_LOCAL_ACTION],
        "the exclusion beats the duplicate loop"
    );
    assert!(check("- hosts: web\n  tasks:\n    - action: debug msg=x\n").is_empty());
    assert!(check("- hosts: web\n  tasks:\n    - local_action: debug msg=y\n").is_empty());
}

#[test]
fn a_null_trigger_belongs_to_a_different_rule() {
    assert!(
        check("- hosts: web\n  tasks:\n    - local_action:\n      action: debug msg=x\n").is_empty(),
        "null local_action is the parameter-type error, not row 11"
    );
    assert!(
        check("- hosts: web\n  tasks:\n    - local_action:\n      delegate_to: other\n").is_empty(),
        "and likewise for row 24"
    );
    assert_eq!(
        check("- hosts: web\n  user:\n  remote_user:\n  tasks: []\n"),
        [USER_AND_REMOTE_USER]
    );
}

#[test]
fn a_discarded_delegate_to_is_our_own_warning() {
    let src = "- hosts: web\n  tasks:\n    - local_action: debug msg=y\n      delegate_to: other\n";
    let nodes = Document::new(src.to_string()).parse().unwrap();
    let got = problems(&nodes, src);
    assert_eq!(got.len(), 1, "{got:?}");
    assert_eq!(got[0].tier, Tier::Warning);
    assert_eq!(got[0].rule, DISCARDED_DELEGATE_TO_RULE_ID);
    for want in ["localhost", "discarded", "runs locally"] {
        assert!(got[0].message.contains(want), "missing {want:?}: {}", got[0].message);
    }
    assert!(check("- hosts: web\n  tasks:\n    - debug: {msg: y}\n      delegate_to: other\n").is_empty());
}

#[test]
fn two_action_candidates_conflict_without_resolving_either() {
    assert_eq!(
        check("- hosts: web\n  tasks:\n    - debug: {msg: x}\n      frobnicate: y\n"),
        ["conflicting action statements: debug, frobnicate"]
    );
    assert_eq!(
        check("- hosts: web\n  tasks:\n    - debug: {msg: x}\n      nmae: foo\n"),
        ["conflicting action statements: debug, nmae"]
    );
    assert_eq!(
        check("- hosts: web\n  tasks:\n    - ansible.builtin.debug: {msg: x}\n      frobnicate: y\n"),
        ["conflicting action statements: ansible.builtin.debug, frobnicate"]
    );
}

#[test]
fn task_attributes_are_not_action_candidates() {
    for second in ["when: true", "with_items: [1]", "register: r", "listen: x"] {
        assert!(
            check(&format!(
                "- hosts: web\n  tasks:\n    - debug: {{msg: x}}\n      {second}\n"
            ))
            .is_empty(),
            "{second} must not count as an action"
        );
    }
    assert!(check("- hosts: web\n  tasks:\n    - debug: {msg: x}\n      static: yes\n").is_empty());
}

#[test]
fn row_12_defers_when_the_first_value_would_fail_normalization() {
    assert!(
        check("- hosts: web\n  tasks:\n    - foo: [1, 2]\n      bar: x\n").is_empty(),
        "a list first value is `unexpected parameter type in action`"
    );
    for first in ["foo: \"a string\"", "foo:"] {
        assert_eq!(
            check(&format!("- hosts: web\n  tasks:\n    - {first}\n      bar: x\n")),
            ["conflicting action statements: foo, bar"],
            "for {first}"
        );
    }
}

#[test]
fn a_task_with_no_module_at_all() {
    for body in [
        "- name: just a name\n      when: true",
        "- name: just a name",
        "- {}",
        "- with_items: [1]",
    ] {
        assert_eq!(
            check(&format!("- hosts: web\n  tasks:\n    {body}\n")),
            [NO_MODULE],
            "for {body:?}"
        );
    }
}

#[test]
fn action_and_local_action_each_supply_a_module() {
    assert!(check("- hosts: web\n  tasks:\n    - action: debug msg=x\n").is_empty());
    assert!(check("- hosts: web\n  tasks:\n    - local_action: debug msg=x\n").is_empty());
    assert!(check("- hosts: web\n  tasks:\n    - block:\n        - debug: {msg: x}\n").is_empty());
}

#[test]
fn import_playbook_in_a_task_list_is_our_own_rule() {
    let src = "- hosts: web\n  tasks:\n    - import_playbook: other.yml\n";
    let nodes = Document::new(src.to_string()).parse().unwrap();
    let got = problems(&nodes, src);
    assert_eq!(got.len(), 1, "{got:?}");
    assert_eq!(got[0].rule, MISPLACED_IMPORT_PLAYBOOK_RULE_ID);
    assert_eq!(got[0].tier, Tier::Error);
    for want in ["top-level", "import_tasks"] {
        assert!(got[0].message.contains(want), "missing {want:?}: {}", got[0].message);
    }
    for src in [
        "- hosts: web\n  pre_tasks:\n    - import_playbook: other.yml\n",
        "- hosts: web\n  tasks:\n    - block:\n        - import_playbook: other.yml\n",
        "- hosts: web\n  tasks: []\n  handlers:\n    - name: h\n      import_playbook: other.yml\n",
        "- block:\n    - import_playbook: other.yml\n",
    ] {
        assert_eq!(check(src).len(), 1, "for {src:?}");
    }
}

#[test]
fn a_top_level_import_playbook_is_untouched() {
    assert!(check("- import_playbook: other.yml\n").is_empty());
    assert!(check("- import_playbook: a.yml\n- hosts: web\n  tasks: []\n").is_empty());
    assert!(check("- ansible.builtin.import_playbook: other.yml\n").is_empty());
}

#[test]
fn a_task_list_entry_must_be_a_mapping() {
    for entry in ["just a string", "[1, 2]", "42"] {
        assert_eq!(
            check(&format!("- hosts: web\n  tasks:\n    - {entry}\n")),
            [NOT_A_MAPPING],
            "for {entry}"
        );
    }
    for src in [
        "- hosts: web\n  tasks:\n    - block:\n        - just a string\n",
        "- hosts: web\n  tasks: []\n  handlers:\n    - just a string\n",
        "- just a string\n",
    ] {
        assert_eq!(check(src), [NOT_A_MAPPING], "for {src:?}");
    }
}

#[test]
fn a_null_entry_and_an_alias_are_not_malformed() {
    assert!(check("- hosts: web\n  tasks:\n    -\n    - debug: {msg: x}\n").is_empty());
    assert!(check("- hosts: web\n  tasks:\n    - &anchor {debug: {msg: x}}\n    - *anchor\n").is_empty());
}

#[test]
fn conflicting_import_playbook_spellings() {
    assert_eq!(
        check("- import_playbook: a.yml\n  ansible.builtin.import_playbook: b.yml\n"),
        ["Found conflicting import_playbook actions: ansible.builtin.import_playbook, \
          import_playbook"],
        "sorted, not written order"
    );
    assert_eq!(
        check("- import_playbook: a.yml\n  ansible.builtin.import_playbook: b.yml\n  ansible.legacy.import_playbook: c.yml\n"),
        ["Found conflicting import_playbook actions: ansible.builtin.import_playbook, \
          ansible.legacy.import_playbook, import_playbook"]
    );
    assert!(check("- import_playbook: a.yml\n").is_empty());
    assert!(check("- ansible.builtin.import_playbook: a.yml\n").is_empty());
    assert!(check("- import_playbook: a.yml\n  community.general.import_playbook: b.yml\n").is_empty());
}

#[test]
fn the_user_key_is_what_gets_underlined() {
    let src = "- hosts: web\n  user: alice\n  remote_user: bob\n  tasks: []\n";
    let nodes = Document::new(src.to_string()).parse().unwrap();
    let p = &problems(&nodes, src)[0];
    assert_eq!(p.span.slice(src), "user");
    assert_eq!(p.tier, Tier::Error);
}

#[test]
fn an_empty_hosts_is_an_error_in_all_three_spellings() {
    for src in [
        "- hosts:\n  tasks: []\n",
        "- hosts: \"\"\n  tasks: []\n",
        "- hosts: []\n  tasks: []\n",
    ] {
        assert_eq!(check(src), [HOSTS_EMPTY], "for {src:?}");
    }
}

#[test]
fn hosts_entry_and_container_shapes() {
    assert_eq!(
        check("- hosts:\n    - web\n    -\n    - db\n  tasks: []\n"),
        [HOSTS_NONE]
    );
    assert_eq!(
        check("- hosts:\n    - {name: web}\n  tasks: []\n"),
        ["Hosts list contains an invalid host value: '{name: web}'"]
    );
    assert_eq!(check("- hosts: {group: web}\n  tasks: []\n"), [HOSTS_SHAPE]);
}

#[test]
fn ordinary_hosts_values_stay_silent() {
    for src in [
        "- hosts: all\n  tasks: []\n",
        "- hosts: web:&staging\n  tasks: []\n",
        "- hosts: \"{{ target_group }}\"\n  tasks: []\n",
        "- hosts:\n    - web\n    - db\n  tasks: []\n",
        "- hosts: [web, db]\n  tasks: []\n",
        "- hosts: [\"\", web]\n  tasks: []\n",
        "- import_playbook: other.yml\n",
    ] {
        assert!(check(src).is_empty(), "for {src:?}: {:?}", check(src));
    }
}

#[test]
fn a_numeric_hosts_is_a_known_miss() {
    assert!(check("- hosts: 42\n  tasks: []\n").is_empty());
}

#[test]
fn vars_prompt_entries_need_a_name_and_a_known_key() {
    assert_eq!(
        check("- hosts: web\n  vars_prompt:\n    - prompt: Password?\n  tasks: []\n"),
        ["Invalid vars_prompt data structure, missing 'name' key"]
    );
    assert_eq!(
        check(
            "- hosts: web\n  vars_prompt:\n    - name: pw\n      promt: Password?\n  tasks: []\n"
        ),
        ["Invalid vars_prompt data structure, found unsupported key 'promt'"]
    );
    assert_eq!(
        check("- hosts: web\n  vars_prompt:\n    prompt: Password?\n  tasks: []\n"),
        ["Invalid vars_prompt data structure, missing 'name' key"]
    );
}

#[test]
fn a_fatal_loop_control_suppresses_the_import_loop_rule() {
    let src = "- hosts: web\n  tasks:\n    - import_tasks: t.yml\n      loop: [1, 2]\n      \
               loop_control: 5\n";
    assert_eq!(
        check(src),
        ["the `loop_control` value must be specified as a dictionary and cannot be a \
          variable itself (though it can contain variables)"]
    );
}

#[test]
fn a_vars_prompt_entry_that_is_not_a_mapping_is_refused() {
    let cases = [
        "- hosts: web\n  vars_prompt:\n    - just a string\n  tasks: []\n",
        "- hosts: web\n  vars_prompt:\n    - 42\n  tasks: []\n",
        "- hosts: web\n  vars_prompt:\n    -\n  tasks: []\n",
        "- hosts: web\n  vars_prompt:\n    - - name: pw\n  tasks: []\n",
        "- hosts: web\n  vars_prompt: just a string\n  tasks: []\n",
    ];
    for src in cases {
        assert_eq!(check(src), ["Invalid variable file contents."], "{src}");
    }
    let aliased = "- hosts: web\n  vars:\n    e: &e {name: pw}\n  vars_prompt:\n    - *e\n  \
                   tasks: []\n";
    assert!(check(aliased).is_empty(), "{:?}", check(aliased));
}

#[test]
fn a_full_legal_vars_prompt_stays_silent() {
    let src = "- hosts: web\n  vars_prompt:\n    - name: pw\n      prompt: Password?\n      \
               private: true\n      confirm: true\n      encrypt: sha512_crypt\n      \
               salt_size: 8\n      salt: abc\n      default: x\n      unsafe: true\n  tasks: []\n";
    assert!(check(src).is_empty(), "{:?}", check(src));
    assert!(check("- hosts: web\n  vars_prompt:\n  tasks: []\n").is_empty());
    assert!(check("- hosts: web\n  vars_prompt:\n    - name:\n  tasks: []\n").is_empty());
}

#[test]
fn a_playbook_entry_that_is_not_a_mapping_is_an_error() {
    assert_eq!(
        check("- hosts: web\n  tasks: []\n- just-a-string\n"),
        [NOT_A_PLAY]
    );
    assert_eq!(check("- hosts: web\n  tasks: []\n- - nested\n"), [NOT_A_PLAY]);
}

#[test]
fn a_task_file_is_left_alone_by_the_play_rules() {
    assert!(check("- name: t\n  debug: {msg: hi}\n- command: echo hi\n").is_empty());
    assert!(check("- name: t\n  add_host:\n    hostname: web\n").is_empty());
}

const NO_LOOP_TASKS: &str =
    "You cannot use loops on 'import_tasks' statements. You should use 'include_tasks' \
     instead.";
const NO_LOOP_ROLE: &str =
    "You cannot use loops on 'import_role' statements. You should use 'include_role' \
     instead.";

#[test]
fn a_loop_on_an_import_is_an_error() {
    assert_eq!(
        check("- hosts: web\n  tasks:\n    - import_tasks: f.yml\n      loop: [1, 2]\n"),
        [NO_LOOP_TASKS]
    );
    assert_eq!(
        check("- hosts: web\n  tasks:\n    - import_tasks: f.yml\n      with_items: [1]\n"),
        [NO_LOOP_TASKS]
    );
    assert_eq!(
        check("- hosts: web\n  tasks:\n    - import_role: {name: r}\n      loop: [1]\n"),
        [NO_LOOP_ROLE]
    );
    assert_eq!(
        check("- hosts: web\n  tasks:\n    - import_role: {name: r}\n      with_items: [1]\n"),
        [NO_LOOP_ROLE]
    );
}

#[test]
fn every_with_lookup_spelling_counts_as_a_loop() {
    for k in [
        "with_list",
        "with_items",
        "with_indexed_items",
        "with_flattened",
        "with_together",
        "with_dict",
        "with_sequence",
        "with_subelements",
        "with_nested",
        "with_cartesian",
        "with_random_choice",
        "with_fileglob",
        "with_first_found",
        "with_lines",
    ] {
        assert_eq!(
            check(&format!(
                "- hosts: web\n  tasks:\n    - import_tasks: f.yml\n      {k}: [1]\n"
            )),
            [NO_LOOP_TASKS],
            "for {k}"
        );
    }
}

#[test]
fn an_unknown_with_lookup_is_reported_as_a_loop_not_an_unknown_key() {
    assert_eq!(
        check("- hosts: web\n  tasks:\n    - import_tasks: f.yml\n      with_frobnicate: [1]\n"),
        [NO_LOOP_TASKS],
        "a loop, whatever its lookup"
    );
}

#[test]
fn an_fqcn_import_reports_the_bare_action_name() {
    for prefix in ["ansible.builtin.", "ansible.legacy."] {
        assert_eq!(
            check(&format!(
                "- hosts: web\n  tasks:\n    - {prefix}import_tasks: f.yml\n      loop: [1]\n"
            )),
            [NO_LOOP_TASKS]
        );
    }
}

#[test]
fn a_null_loop_passes_and_an_empty_list_does_not() {
    assert!(check("- hosts: web\n  tasks:\n    - import_tasks: f.yml\n      loop:\n").is_empty());
    assert_eq!(
        check("- hosts: web\n  tasks:\n    - import_tasks: f.yml\n      loop: []\n"),
        [NO_LOOP_TASKS]
    );
}

#[test]
fn loops_on_the_include_twins_stay_silent() {
    assert!(check("- hosts: web\n  tasks:\n    - include_tasks: f.yml\n      loop: [1]\n").is_empty());
    assert!(check("- hosts: web\n  tasks:\n    - include_role: {name: r}\n      loop: [1]\n").is_empty());
    assert!(check("- hosts: web\n  tasks:\n    - import_tasks: f.yml\n").is_empty());
}

#[test]
fn the_loop_rule_reaches_every_task_list() {
    for key in ["pre_tasks", "tasks", "post_tasks", "handlers"] {
        assert_eq!(
            check(&format!(
                "- hosts: web\n  {key}:\n    - import_tasks: f.yml\n      loop: [1]\n"
            )),
            [NO_LOOP_TASKS],
            "in {key}"
        );
    }
    for key in ["block", "rescue", "always"] {
        assert_eq!(
            check(&format!(
                "- hosts: web\n  tasks:\n    - block: [{{debug: null}}]\n      \
                 {key}:\n        - import_tasks: f.yml\n          loop: [1]\n"
            )),
            [NO_LOOP_TASKS],
            "in {key}"
        );
    }
    assert_eq!(
        check("- import_tasks: f.yml\n  loop: [1]\n"),
        [NO_LOOP_TASKS]
    );
}

#[test]
fn a_second_loop_keyword_is_a_duplicate_loop() {
    assert_eq!(
        check("- hosts: web\n  tasks:\n    - debug:\n      loop: [1]\n      with_items: [a]\n"),
        ["duplicate loop in task: items"]
    );
    assert_eq!(
        check(
            "- hosts: web\n  tasks:\n    - debug:\n      with_items: [a]\n      with_list: [b]\n"
        ),
        ["duplicate loop in task: list"]
    );
    assert_eq!(
        check(
            "- hosts: web\n  tasks:\n    - debug:\n      with_list: [b]\n      with_items: [a]\n"
        ),
        ["duplicate loop in task: items"]
    );
}

#[test]
fn a_loop_written_after_a_with_star_warns_on_its_own_rule() {
    let src = "- hosts: web\n  tasks:\n    - debug:\n      with_items: [a]\n      loop: [1]\n";
    let nodes = Document::new(src.to_string()).parse().unwrap();
    let got = problems(&nodes, src);
    assert_eq!(got.len(), 1);
    assert_eq!(got[0].tier, Tier::Warning, "Ansible runs this, so it is not an error");
    assert_eq!(got[0].rule, SHADOWED_LOOP_RULE_ID);
    assert_eq!(got[0].span.slice(src), "with_items");
    for want in ["with_items:", "discarded", "'items' lookup", "other\norder", "Delete one"] {
        let want = want.replace('\n', " ");
        assert!(got[0].message.contains(&want), "missing {want:?}: {}", got[0].message);
    }
}

#[test]
fn a_shadowed_loop_on_an_import_reports_both() {
    let got = check(
        "- hosts: web\n  tasks:\n    - import_tasks: f.yml\n      with_items: [a]\n      \
         loop: [1]\n",
    );
    assert_eq!(got.len(), 2, "{got:?}");
    assert!(got[0].contains("overridden by the `loop:`"));
    assert_eq!(got[1], NO_LOOP_TASKS);
}

#[test]
fn a_null_loop_does_not_make_a_following_with_star_a_duplicate() {
    assert!(check(
        "- hosts: web\n  tasks:\n    - debug:\n      loop:\n      with_items: [a]\n"
    )
    .is_empty());
}

#[test]
fn a_with_star_written_with_no_value_is_an_error() {
    assert_eq!(
        check("- hosts: web\n  tasks:\n    - debug:\n      with_items:\n"),
        ["you must specify a value when using with_items"]
    );
    assert_eq!(
        check("- hosts: web\n  tasks:\n    - debug:\n      with_dict:\n"),
        ["you must specify a value when using with_dict"]
    );
    for empty in ["\"\"", "[]", "{}"] {
        assert!(
            check(&format!(
                "- hosts: web\n  tasks:\n    - debug:\n      with_items: {empty}\n"
            ))
            .is_empty(),
            "with_items: {empty} runs clean"
        );
    }
}

#[test]
fn the_duplicate_check_beats_the_null_value_check() {
    assert_eq!(
        check("- hosts: web\n  tasks:\n    - debug:\n      loop: [1]\n      with_items:\n"),
        ["duplicate loop in task: items"]
    );
    assert_eq!(
        check("- hosts: web\n  tasks:\n    - debug:\n      with_items:\n      loop: [1]\n"),
        ["you must specify a value when using with_items"]
    );
}

#[test]
fn a_duplicate_loop_on_an_import_beats_the_import_rule() {
    assert_eq!(
        check(
            "- hosts: web\n  tasks:\n    - import_tasks: f.yml\n      loop: [1]\n      \
             with_items: [a]\n"
        ),
        ["duplicate loop in task: items"]
    );
}

#[test]
fn a_loop_control_that_is_not_a_mapping_is_an_error() {
    for value in ["nonsense", "[a, b]", "", "\"{{ a_var }}\""] {
        assert_eq!(
            check(&format!(
                "- hosts: web\n  tasks:\n    - debug:\n      loop: [1]\n      \
                 loop_control: {value}\n"
            )),
            [LOOP_CONTROL_SHAPE],
            "for loop_control: {value:?}"
        );
    }
    assert_eq!(
        check("- hosts: web\n  tasks:\n    - debug:\n      loop_control: nonsense\n"),
        [LOOP_CONTROL_SHAPE]
    );
}

#[test]
fn a_loop_control_with_no_loop_warns_and_names_the_inert_keys() {
    let src = "- hosts: web\n  tasks:\n    - debug:\n      loop_control:\n        \
               loop_var: it\n        label: x\n";
    let nodes = Document::new(src.to_string()).parse().unwrap();
    let got = problems(&nodes, src);
    assert_eq!(got.len(), 1);
    assert_eq!(got[0].tier, Tier::Warning);
    assert_eq!(got[0].rule, DEAD_LOOP_CONTROL_RULE_ID);
    assert_eq!(got[0].span.slice(src), "loop_control");
    assert!(got[0].message.contains("`loop_var`, `label` have no effect"), "{}", got[0].message);
    let one = "- hosts: web\n  tasks:\n    - debug:\n      loop_control: {loop_var: it}\n";
    let nodes = Document::new(one.to_string()).parse().unwrap();
    assert!(problems(&nodes, one)[0].message.contains("`loop_var` has no effect"));
}

#[test]
fn the_dead_loop_control_rule_covers_every_task_shape() {
    for action in [
        "debug:",
        "include_tasks: f.yml",
        "include_role: {name: r}",
        "import_tasks: f.yml",
    ] {
        let got = check(&format!(
            "- hosts: web\n  tasks:\n    - {action}\n      loop_control: {{loop_var: it}}\n"
        ));
        assert_eq!(got.len(), 1, "for {action}: {got:?}");
        assert!(got[0].contains("no loop to control"));
    }
    for loop_key in ["loop: [1]", "with_items: [a]"] {
        assert!(
            check(&format!(
                "- hosts: web\n  tasks:\n    - debug:\n      {loop_key}\n      \
                 loop_control: {{loop_var: it}}\n"
            ))
            .is_empty(),
            "for {loop_key}"
        );
    }
    assert_eq!(
        check(
            "- hosts: web\n  tasks:\n    - debug:\n      loop:\n      \
             loop_control: {loop_var: it}\n"
        )
        .len(),
        1
    );
}

#[test]
fn a_block_loop_control_is_left_to_the_keyword_rule() {
    assert!(check(
        "- hosts: web\n  tasks:\n    - block:\n        - debug:\n      \
         loop_control: {loop_var: it}\n"
    )
    .is_empty());
}

#[test]
fn the_loop_key_is_what_gets_underlined() {
    let src = "- hosts: web\n  tasks:\n    - import_tasks: f.yml\n      with_items: [1]\n";
    let nodes = Document::new(src.to_string()).parse().unwrap();
    assert_eq!(problems(&nodes, src)[0].span.slice(src), "with_items");
}

#[test]
fn a_clean_playbook_has_no_problems() {
    let src = "- name: fine\n  hosts: web\n  remote_user: deploy\n  vars_prompt:\n    \
               - name: pw\n      prompt: Password?\n  tasks:\n    - debug: {msg: hi}\n\
               - import_playbook: other.yml\n";
    assert!(check(src).is_empty(), "{:?}", check(src));
}

#[test]
fn each_problem_names_its_rule() {
    let rules = |src: &str| -> Vec<&'static str> {
        let nodes = Document::new(src.to_string()).parse().expect("valid yaml");
        problems(&nodes, src).into_iter().map(|p| p.rule).collect()
    };
    assert_eq!(rules("- hosts: []\n  tasks: []\n"), [RULE_ID]);
    assert_eq!(rules("- just a string\n"), [MALFORMED_TASK_ENTRY_RULE_ID]);
    assert!(rules("a: b\n").is_empty());
}

#[test]
fn a_refused_statement_is_reported_once() {
    let src = "- hosts: web\n  tasks: []\n  handlers:\n    - name: h\n      meta: end_role\n      loop: [1]\n      with_items: [2]\n";
    assert_eq!(check(src).len(), 1);
}
