//! Which keys are legal where, word by word.

use vstd::prelude::*;

use crate::keywords::{self, KeyContext};
use crate::text;

verus! {

/// The keys that every object of a playbook takes.
pub open spec fn common(key: Seq<char>) -> bool {
    ||| key == "any_errors_fatal"@
    ||| key == "become"@
    ||| key == "become_exe"@
    ||| key == "become_flags"@
    ||| key == "become_method"@
    ||| key == "become_user"@
    ||| key == "check_mode"@
    ||| key == "connection"@
    ||| key == "debugger"@
    ||| key == "diff"@
    ||| key == "environment"@
    ||| key == "ignore_errors"@
    ||| key == "ignore_unreachable"@
    ||| key == "module_defaults"@
    ||| key == "name"@
    ||| key == "no_log"@
    ||| key == "port"@
    ||| key == "remote_user"@
    ||| key == "run_once"@
    ||| key == "throttle"@
    ||| key == "timeout"@
    ||| key == "vars"@
}

/// The keys that only a play takes, beside `user`.
pub open spec fn play_own(key: Seq<char>) -> bool {
    ||| key == "fact_path"@
    ||| key == "force_handlers"@
    ||| key == "gather_facts"@
    ||| key == "gather_subset"@
    ||| key == "gather_timeout"@
    ||| key == "handlers"@
    ||| key == "hosts"@
    ||| key == "max_fail_percentage"@
    ||| key == "order"@
    ||| key == "post_tasks"@
    ||| key == "pre_tasks"@
    ||| key == "roles"@
    ||| key == "serial"@
    ||| key == "strategy"@
    ||| key == "tasks"@
    ||| key == "validate_argspec"@
    ||| key == "vars_files"@
    ||| key == "vars_prompt"@
}

/// The keys that a task takes beyond those of everything that runs.
pub open spec fn task_own(key: Seq<char>) -> bool {
    ||| key == "action"@
    ||| key == "args"@
    ||| key == "async"@
    ||| key == "async_val"@
    ||| key == "changed_when"@
    ||| key == "delay"@
    ||| key == "failed_when"@
    ||| key == "loop"@
    ||| key == "loop_control"@
    ||| key == "loop_with"@
    ||| key == "poll"@
    ||| key == "register"@
    ||| key == "retries"@
    ||| key == "until"@
}

/// The keys that an `include_tasks` or `include_role` takes.
pub open spec fn include_own(key: Seq<char>) -> bool {
    ||| key == "action"@
    ||| key == "args"@
    ||| key == "collections"@
    ||| key == "debugger"@
    ||| key == "ignore_errors"@
    ||| key == "loop"@
    ||| key == "loop_control"@
    ||| key == "loop_with"@
    ||| key == "name"@
    ||| key == "no_log"@
    ||| key == "register"@
    ||| key == "run_once"@
    ||| key == "tags"@
    ||| key == "timeout"@
    ||| key == "vars"@
    ||| key == "when"@
}

/// The keys that only the metadata of a role takes.
pub open spec fn metadata_own(key: Seq<char>) -> bool {
    ||| key == "allow_duplicates"@
    ||| key == "argument_specs"@
    ||| key == "dependencies"@
    ||| key == "galaxy_info"@
}

/// The keys of a `loop_control`.
pub open spec fn control(key: Seq<char>) -> bool {
    ||| key == "break_when"@
    ||| key == "extended"@
    ||| key == "extended_allitems"@
    ||| key == "index_var"@
    ||| key == "label"@
    ||| key == "loop_var"@
    ||| key == "pause"@
}

/// The keys of an entry of `vars_prompt`.
pub open spec fn prompt(key: Seq<char>) -> bool {
    ||| key == "confirm"@
    ||| key == "default"@
    ||| key == "encrypt"@
    ||| key == "name"@
    ||| key == "private"@
    ||| key == "prompt"@
    ||| key == "salt"@
    ||| key == "salt_size"@
    ||| key == "unsafe"@
}

/// The keys of a condition, of tags, collections, delegation and handlers: those of everything
/// that runs.
pub open spec fn running(key: Seq<char>) -> bool {
    ||| key == "when"@
    ||| key == "tags"@
    ||| key == "collections"@
    ||| key == "delegate_to"@
    ||| key == "delegate_facts"@
    ||| key == "notify"@
}

/// Is the key legal in the place?
pub open spec fn legal(ctx: KeyContext, key: Seq<char>) -> bool {
    match ctx {
        KeyContext::Play => common(key) || key == "tags"@ || key == "collections"@ || play_own(key)
            || key == "user"@,
        KeyContext::Block => common(key) || running(key) || key == "block"@ || key == "rescue"@
            || key == "always"@,
        KeyContext::Task => common(key) || running(key) || task_own(key),
        KeyContext::Handler => common(key) || running(key) || task_own(key) || key == "listen"@,
        KeyContext::DynamicInclude => include_own(key),
        KeyContext::DynamicHandlerInclude => include_own(key) || key == "listen"@,
        KeyContext::RoleMetadata => common(key) || key == "collections"@ || metadata_own(key),
        KeyContext::LoopControl => control(key),
    }
}

proof fn common_table(key: Seq<char>)
    ensures
        keywords::listed(keywords::BASE@, key) == common(key),
{
    let t = keywords::BASE@;
    assert(t.len() == 22);
    assert(t[0]@ == "any_errors_fatal"@ && t[1]@ == "become"@ && t[2]@ == "become_exe"@);
    assert(t[3]@ == "become_flags"@ && t[4]@ == "become_method"@ && t[5]@ == "become_user"@);
    assert(t[6]@ == "check_mode"@ && t[7]@ == "connection"@ && t[8]@ == "debugger"@);
    assert(t[9]@ == "diff"@ && t[10]@ == "environment"@ && t[11]@ == "ignore_errors"@);
    assert(t[12]@ == "ignore_unreachable"@ && t[13]@ == "module_defaults"@ && t[14]@ == "name"@);
    assert(t[15]@ == "no_log"@ && t[16]@ == "port"@ && t[17]@ == "remote_user"@);
    assert(t[18]@ == "run_once"@ && t[19]@ == "throttle"@ && t[20]@ == "timeout"@);
    assert(t[21]@ == "vars"@);
}

proof fn play_own_table(key: Seq<char>)
    ensures
        keywords::listed(keywords::PLAY_OWN@, key) == play_own(key),
{
    let t = keywords::PLAY_OWN@;
    assert(t.len() == 18);
    assert(t[0]@ == "fact_path"@ && t[1]@ == "force_handlers"@ && t[2]@ == "gather_facts"@);
    assert(t[3]@ == "gather_subset"@ && t[4]@ == "gather_timeout"@ && t[5]@ == "handlers"@);
    assert(t[6]@ == "hosts"@ && t[7]@ == "max_fail_percentage"@ && t[8]@ == "order"@);
    assert(t[9]@ == "post_tasks"@ && t[10]@ == "pre_tasks"@ && t[11]@ == "roles"@);
    assert(t[12]@ == "serial"@ && t[13]@ == "strategy"@ && t[14]@ == "tasks"@);
    assert(t[15]@ == "validate_argspec"@ && t[16]@ == "vars_files"@ && t[17]@ == "vars_prompt"@);
}

proof fn task_own_table(key: Seq<char>)
    ensures
        keywords::listed(keywords::TASK_OWN@, key) == task_own(key),
{
    let t = keywords::TASK_OWN@;
    assert(t.len() == 14);
    assert(t[0]@ == "action"@ && t[1]@ == "args"@ && t[2]@ == "async"@);
    assert(t[3]@ == "async_val"@ && t[4]@ == "changed_when"@ && t[5]@ == "delay"@);
    assert(t[6]@ == "failed_when"@ && t[7]@ == "loop"@ && t[8]@ == "loop_control"@);
    assert(t[9]@ == "loop_with"@ && t[10]@ == "poll"@ && t[11]@ == "register"@);
    assert(t[12]@ == "retries"@ && t[13]@ == "until"@);
}

proof fn include_own_table(key: Seq<char>)
    ensures
        keywords::listed(keywords::DYNAMIC_INCLUDE@, key) == include_own(key),
{
    let t = keywords::DYNAMIC_INCLUDE@;
    assert(t.len() == 16);
    assert(t[0]@ == "action"@ && t[1]@ == "args"@ && t[2]@ == "collections"@);
    assert(t[3]@ == "debugger"@ && t[4]@ == "ignore_errors"@ && t[5]@ == "loop"@);
    assert(t[6]@ == "loop_control"@ && t[7]@ == "loop_with"@ && t[8]@ == "name"@);
    assert(t[9]@ == "no_log"@ && t[10]@ == "register"@ && t[11]@ == "run_once"@);
    assert(t[12]@ == "tags"@ && t[13]@ == "timeout"@ && t[14]@ == "vars"@);
    assert(t[15]@ == "when"@);
}

proof fn metadata_own_table(key: Seq<char>)
    ensures
        keywords::listed(keywords::ROLE_METADATA_OWN@, key) == metadata_own(key),
{
    let t = keywords::ROLE_METADATA_OWN@;
    assert(t.len() == 4);
    assert(t[0]@ == "allow_duplicates"@ && t[1]@ == "argument_specs"@ && t[2]@ == "dependencies"@);
    assert(t[3]@ == "galaxy_info"@);
}

proof fn control_table(key: Seq<char>)
    ensures
        keywords::listed(keywords::LOOP_CONTROL_KEYS@, key) == control(key),
{
    let t = keywords::LOOP_CONTROL_KEYS@;
    assert(t.len() == 7);
    assert(t[0]@ == "break_when"@ && t[1]@ == "extended"@ && t[2]@ == "extended_allitems"@);
    assert(t[3]@ == "index_var"@ && t[4]@ == "label"@ && t[5]@ == "loop_var"@);
    assert(t[6]@ == "pause"@);
}

proof fn prompt_table(key: Seq<char>)
    ensures
        keywords::listed(keywords::VARS_PROMPT_KEYS@, key) == prompt(key),
{
    let t = keywords::VARS_PROMPT_KEYS@;
    assert(t.len() == 9);
    assert(t[0]@ == "confirm"@ && t[1]@ == "default"@ && t[2]@ == "encrypt"@);
    assert(t[3]@ == "name"@ && t[4]@ == "private"@ && t[5]@ == "prompt"@);
    assert(t[6]@ == "salt"@ && t[7]@ == "salt_size"@ && t[8]@ == "unsafe"@);
}

proof fn small_tables(key: Seq<char>)
    ensures
        keywords::listed(keywords::CONDITIONAL@, key) == (key == "when"@),
        keywords::listed(keywords::TAGGABLE@, key) == (key == "tags"@),
        keywords::listed(keywords::COLLECTION_SEARCH@, key) == (key == "collections"@),
        keywords::listed(keywords::DELEGATABLE@, key) == (key == "delegate_to"@ || key
            == "delegate_facts"@),
        keywords::listed(keywords::NOTIFIABLE@, key) == (key == "notify"@),
        keywords::listed(keywords::BLOCK_OWN@, key) == (key == "always"@ || key == "block"@ || key
            == "rescue"@),
        keywords::listed(keywords::HANDLER_OWN@, key) == (key == "listen"@),
        keywords::listed(seq!["user"], key) == (key == "user"@),
{
    let a = keywords::CONDITIONAL@;
    assert(a.len() == 1 && a[0]@ == "when"@);
    let b = keywords::TAGGABLE@;
    assert(b.len() == 1 && b[0]@ == "tags"@);
    let c = keywords::COLLECTION_SEARCH@;
    assert(c.len() == 1 && c[0]@ == "collections"@);
    let d = keywords::DELEGATABLE@;
    assert(d.len() == 2 && d[0]@ == "delegate_to"@ && d[1]@ == "delegate_facts"@);
    let e = keywords::NOTIFIABLE@;
    assert(e.len() == 1 && e[0]@ == "notify"@);
    let f = keywords::BLOCK_OWN@;
    assert(f.len() == 3 && f[0]@ == "always"@ && f[1]@ == "block"@ && f[2]@ == "rescue"@);
    let g = keywords::HANDLER_OWN@;
    assert(g.len() == 1 && g[0]@ == "listen"@);
    let h: Seq<&'static str> = seq!["user"];
    assert(h.len() == 1 && h[0]@ == "user"@);
}

/// A word is in two tables together where it is in one of them.
proof fn in_either(a: Seq<&'static str>, b: Seq<&'static str>, key: Seq<char>)
    ensures
        keywords::listed(a + b, key) == (keywords::listed(a, key) || keywords::listed(b, key)),
{
    let t = a + b;
    if keywords::listed(a, key) {
        let i = choose|i: int| 0 <= i < a.len() && (#[trigger] a[i])@ == key;
        assert(t[i]@ == key);
    }
    if keywords::listed(b, key) {
        let i = choose|i: int| 0 <= i < b.len() && (#[trigger] b[i])@ == key;
        assert(t[a.len() + i]@ == key);
    }
    if keywords::listed(t, key) {
        let i = choose|i: int| 0 <= i < t.len() && (#[trigger] t[i])@ == key;
        if i < a.len() {
            assert(a[i]@ == key);
        } else {
            assert(b[i - a.len()]@ == key);
        }
    }
}

proof fn runnable_keys(key: Seq<char>)
    ensures
        keywords::listed(keywords::runnable_mixins(), key) == (common(key) || running(key)),
{
    common_table(key);
    small_tables(key);
    let a = keywords::BASE@ + keywords::CONDITIONAL@;
    let b = a + keywords::TAGGABLE@;
    let c = b + keywords::COLLECTION_SEARCH@;
    let d = c + keywords::DELEGATABLE@;
    in_either(keywords::BASE@, keywords::CONDITIONAL@, key);
    in_either(a, keywords::TAGGABLE@, key);
    in_either(b, keywords::COLLECTION_SEARCH@, key);
    in_either(c, keywords::DELEGATABLE@, key);
    in_either(d, keywords::NOTIFIABLE@, key);
}

/// The keys that are legal in a place are these words and no others.
pub proof fn legal_keys_are_these(ctx: KeyContext, key: Seq<char>)
    ensures
        keywords::listed(keywords::vocabulary(ctx), key) == legal(ctx, key),
{
    small_tables(key);
    match ctx {
        KeyContext::Play => {
            common_table(key);
            play_own_table(key);
            let a = keywords::BASE@ + keywords::TAGGABLE@;
            let b = a + keywords::COLLECTION_SEARCH@;
            let c = b + keywords::PLAY_OWN@;
            in_either(keywords::BASE@, keywords::TAGGABLE@, key);
            in_either(a, keywords::COLLECTION_SEARCH@, key);
            in_either(b, keywords::PLAY_OWN@, key);
            in_either(c, seq!["user"], key);
        },
        KeyContext::Block => {
            runnable_keys(key);
            in_either(keywords::runnable_mixins(), keywords::BLOCK_OWN@, key);
        },
        KeyContext::Task => {
            runnable_keys(key);
            task_own_table(key);
            in_either(keywords::runnable_mixins(), keywords::TASK_OWN@, key);
        },
        KeyContext::Handler => {
            runnable_keys(key);
            task_own_table(key);
            in_either(keywords::runnable_mixins(), keywords::TASK_OWN@, key);
            in_either(
                keywords::runnable_mixins() + keywords::TASK_OWN@,
                keywords::HANDLER_OWN@,
                key,
            );
        },
        KeyContext::DynamicInclude => {
            include_own_table(key);
        },
        KeyContext::DynamicHandlerInclude => {
            include_own_table(key);
            in_either(keywords::DYNAMIC_INCLUDE@, keywords::HANDLER_OWN@, key);
        },
        KeyContext::RoleMetadata => {
            common_table(key);
            metadata_own_table(key);
            let a = keywords::BASE@ + keywords::COLLECTION_SEARCH@;
            in_either(keywords::BASE@, keywords::COLLECTION_SEARCH@, key);
            in_either(a, keywords::ROLE_METADATA_OWN@, key);
        },
        KeyContext::LoopControl => {
            control_table(key);
        },
    }
}

/// The keys of a task that are no module: those of a handler, `local_action` and every `with_...`.
pub proof fn directives_are_these(key: Seq<char>)
    ensures
        keywords::task_directive(key) <==> legal(KeyContext::Handler, key) || key
            == "local_action"@ || (key.len() >= 5 && key.subrange(0, 5) == "with_"@),
{
    legal_keys_are_these(KeyContext::Handler, key);
    reveal_strlit("with_");
}

/// An entry of `vars_prompt` takes these keys and no others.
pub proof fn prompt_keys_are_these(key: Seq<char>)
    ensures
        keywords::listed(keywords::VARS_PROMPT_KEYS@, key) == prompt(key),
{
    prompt_table(key);
}

/// A play is a mapping with `hosts`, or one with a spelling of `import_playbook`.
pub proof fn plays_have_these_keys(key: Seq<char>)
    ensures
        keywords::play_key(key) <==> key == "hosts"@ || key == "import_playbook"@ || key
            == "ansible.builtin."@ + "import_playbook"@ || key == "ansible.legacy."@
            + "import_playbook"@,
{
    reveal_strlit("import_playbook");
    reveal_strlit("ansible.builtin.");
    reveal_strlit("ansible.legacy.");
    let a = "import_playbook"@;
    assert(a.len() == 15 && a[0] == 'i');
    assert("ansible.builtin."@[0] == 'a' && "ansible.legacy."@[0] == 'a');
    if text::begins_with(a, "ansible.legacy."@) {
        assert(a.subrange(0, 15)[0] == a[0]);
    }
    keywords::spellings_of_an_action(key, a);
}

} // verus!
