//! How many keys are legal in each context.
//!
//! The keys of a context stand in several tables. That no two of them are the same is shown by a
//! number for each keyword, which grows along the tables.

use crate::keywords::{
    self, KeyContext, BASE, BLOCK_OWN, COLLECTION_SEARCH, CONDITIONAL, DELEGATABLE, DYNAMIC_INCLUDE,
    HANDLER_OWN, LOOP_CONTROL_KEYS, NOTIFIABLE, PLAY_OWN, ROLE_METADATA_OWN, TAGGABLE, TASK_OWN,
};
use vstd::prelude::*;

verus! {

/// The words of a table.
pub open spec fn words(table: Seq<&'static str>) -> Seq<Seq<char>> {
    table.map_values(|w: &'static str| w@)
}

/// How many keys are legal in a context.
pub open spec fn key_count(ctx: KeyContext) -> nat {
    match ctx {
        KeyContext::Play => 43,
        KeyContext::Block => 31,
        KeyContext::Task => 42,
        KeyContext::Handler => 43,
        KeyContext::DynamicInclude => 16,
        KeyContext::DynamicHandlerInclude => 17,
        KeyContext::RoleMetadata => 27,
        KeyContext::LoopControl => 7,
    }
}

/// A number for each keyword. No two of them agree in their length and their first and last letter.
spec fn place(w: Seq<char>) -> int {
    let k = (w.len(), w[0], w.last());
    if k == (16nat, 'a', 'l') {
        0
    } else if k == (6nat, 'b', 'e') {
        1
    } else if k == (10nat, 'b', 'e') {
        2
    } else if k == (12nat, 'b', 's') {
        3
    } else if k == (13nat, 'b', 'd') {
        4
    } else if k == (11nat, 'b', 'r') {
        5
    } else if k == (10nat, 'c', 'e') {
        6
    } else if k == (10nat, 'c', 'n') {
        7
    } else if k == (8nat, 'd', 'r') {
        8
    } else if k == (4nat, 'd', 'f') {
        9
    } else if k == (11nat, 'e', 't') {
        10
    } else if k == (13nat, 'i', 's') {
        11
    } else if k == (18nat, 'i', 'e') {
        12
    } else if k == (15nat, 'm', 's') {
        13
    } else if k == (4nat, 'n', 'e') {
        14
    } else if k == (6nat, 'n', 'g') {
        15
    } else if k == (4nat, 'p', 't') {
        16
    } else if k == (11nat, 'r', 'r') {
        17
    } else if k == (8nat, 'r', 'e') {
        18
    } else if k == (8nat, 't', 'e') {
        19
    } else if k == (7nat, 't', 't') {
        20
    } else if k == (4nat, 'v', 's') {
        21
    } else if k == (4nat, 'w', 'n') {
        22
    } else if k == (4nat, 't', 's') {
        23
    } else if k == (11nat, 'c', 's') {
        24
    } else if k == (11nat, 'd', 'o') {
        25
    } else if k == (14nat, 'd', 's') {
        26
    } else if k == (6nat, 'n', 'y') {
        27
    } else if k == (9nat, 'f', 'h') {
        28
    } else if k == (14nat, 'f', 's') {
        29
    } else if k == (12nat, 'g', 's') {
        30
    } else if k == (13nat, 'g', 't') {
        31
    } else if k == (14nat, 'g', 't') {
        32
    } else if k == (8nat, 'h', 's') {
        33
    } else if k == (5nat, 'h', 's') {
        34
    } else if k == (19nat, 'm', 'e') {
        35
    } else if k == (5nat, 'o', 'r') {
        36
    } else if k == (10nat, 'p', 's') {
        37
    } else if k == (9nat, 'p', 's') {
        38
    } else if k == (5nat, 'r', 's') {
        39
    } else if k == (6nat, 's', 'l') {
        40
    } else if k == (8nat, 's', 'y') {
        41
    } else if k == (5nat, 't', 's') {
        42
    } else if k == (16nat, 'v', 'c') {
        43
    } else if k == (10nat, 'v', 's') {
        44
    } else if k == (11nat, 'v', 't') {
        45
    } else if k == (6nat, 'a', 's') {
        46
    } else if k == (5nat, 'b', 'k') {
        47
    } else if k == (6nat, 'r', 'e') {
        48
    } else if k == (6nat, 'a', 'n') {
        49
    } else if k == (4nat, 'a', 's') {
        50
    } else if k == (5nat, 'a', 'c') {
        51
    } else if k == (9nat, 'a', 'l') {
        52
    } else if k == (12nat, 'c', 'n') {
        53
    } else if k == (5nat, 'd', 'y') {
        54
    } else if k == (11nat, 'f', 'n') {
        55
    } else if k == (4nat, 'l', 'p') {
        56
    } else if k == (12nat, 'l', 'l') {
        57
    } else if k == (9nat, 'l', 'h') {
        58
    } else if k == (4nat, 'p', 'l') {
        59
    } else if k == (8nat, 'r', 'r') {
        60
    } else if k == (7nat, 'r', 's') {
        61
    } else if k == (5nat, 'u', 'l') {
        62
    } else if k == (6nat, 'l', 'n') {
        63
    } else if k == (16nat, 'a', 's') {
        64
    } else if k == (14nat, 'a', 's') {
        65
    } else if k == (12nat, 'd', 's') {
        66
    } else if k == (11nat, 'g', 'o') {
        67
    } else if k == (4nat, 'u', 'r') {
        68
    } else if k == (10nat, 'b', 'n') {
        69
    } else if k == (8nat, 'e', 'd') {
        70
    } else if k == (17nat, 'e', 's') {
        71
    } else if k == (9nat, 'i', 'r') {
        72
    } else if k == (5nat, 'l', 'l') {
        73
    } else if k == (8nat, 'l', 'r') {
        74
    } else if k == (5nat, 'p', 'e') {
        75
    } else {
        -1
    }
}

proof fn base_places()
    ensures
        forall|i: int| 0 <= i < 22 ==> place((#[trigger] BASE@[i])@) == i,
{
    assert(place(BASE@[0]@) == 0) by {
        reveal_strlit("any_errors_fatal");
    }
    assert(place(BASE@[1]@) == 1) by {
        reveal_strlit("become");
    }
    assert(place(BASE@[2]@) == 2) by {
        reveal_strlit("become_exe");
    }
    assert(place(BASE@[3]@) == 3) by {
        reveal_strlit("become_flags");
    }
    assert(place(BASE@[4]@) == 4) by {
        reveal_strlit("become_method");
    }
    assert(place(BASE@[5]@) == 5) by {
        reveal_strlit("become_user");
    }
    assert(place(BASE@[6]@) == 6) by {
        reveal_strlit("check_mode");
    }
    assert(place(BASE@[7]@) == 7) by {
        reveal_strlit("connection");
    }
    assert(place(BASE@[8]@) == 8) by {
        reveal_strlit("debugger");
    }
    assert(place(BASE@[9]@) == 9) by {
        reveal_strlit("diff");
    }
    assert(place(BASE@[10]@) == 10) by {
        reveal_strlit("environment");
    }
    assert(place(BASE@[11]@) == 11) by {
        reveal_strlit("ignore_errors");
    }
    assert(place(BASE@[12]@) == 12) by {
        reveal_strlit("ignore_unreachable");
    }
    assert(place(BASE@[13]@) == 13) by {
        reveal_strlit("module_defaults");
    }
    assert(place(BASE@[14]@) == 14) by {
        reveal_strlit("name");
    }
    assert(place(BASE@[15]@) == 15) by {
        reveal_strlit("no_log");
    }
    assert(place(BASE@[16]@) == 16) by {
        reveal_strlit("port");
    }
    assert(place(BASE@[17]@) == 17) by {
        reveal_strlit("remote_user");
    }
    assert(place(BASE@[18]@) == 18) by {
        reveal_strlit("run_once");
    }
    assert(place(BASE@[19]@) == 19) by {
        reveal_strlit("throttle");
    }
    assert(place(BASE@[20]@) == 20) by {
        reveal_strlit("timeout");
    }
    assert(place(BASE@[21]@) == 21) by {
        reveal_strlit("vars");
    }
}

proof fn conditional_places()
    ensures
        forall|i: int| 0 <= i < 1 ==> place((#[trigger] CONDITIONAL@[i])@) == 22 + i,
{
    assert(place(CONDITIONAL@[0]@) == 22) by {
        reveal_strlit("when");
    }
}

proof fn taggable_places()
    ensures
        forall|i: int| 0 <= i < 1 ==> place((#[trigger] TAGGABLE@[i])@) == 23 + i,
{
    assert(place(TAGGABLE@[0]@) == 23) by {
        reveal_strlit("tags");
    }
}

proof fn collection_search_places()
    ensures
        forall|i: int| 0 <= i < 1 ==> place((#[trigger] COLLECTION_SEARCH@[i])@) == 24 + i,
{
    assert(place(COLLECTION_SEARCH@[0]@) == 24) by {
        reveal_strlit("collections");
    }
}

proof fn delegatable_places()
    ensures
        forall|i: int| 0 <= i < 2 ==> place((#[trigger] DELEGATABLE@[i])@) == 25 + i,
{
    assert(place(DELEGATABLE@[0]@) == 25) by {
        reveal_strlit("delegate_to");
    }
    assert(place(DELEGATABLE@[1]@) == 26) by {
        reveal_strlit("delegate_facts");
    }
}

proof fn notifiable_places()
    ensures
        forall|i: int| 0 <= i < 1 ==> place((#[trigger] NOTIFIABLE@[i])@) == 27 + i,
{
    assert(place(NOTIFIABLE@[0]@) == 27) by {
        reveal_strlit("notify");
    }
}

proof fn play_own_places()
    ensures
        forall|i: int| 0 <= i < 18 ==> place((#[trigger] PLAY_OWN@[i])@) == 28 + i,
{
    assert(place(PLAY_OWN@[0]@) == 28) by {
        reveal_strlit("fact_path");
    }
    assert(place(PLAY_OWN@[1]@) == 29) by {
        reveal_strlit("force_handlers");
    }
    assert(place(PLAY_OWN@[2]@) == 30) by {
        reveal_strlit("gather_facts");
    }
    assert(place(PLAY_OWN@[3]@) == 31) by {
        reveal_strlit("gather_subset");
    }
    assert(place(PLAY_OWN@[4]@) == 32) by {
        reveal_strlit("gather_timeout");
    }
    assert(place(PLAY_OWN@[5]@) == 33) by {
        reveal_strlit("handlers");
    }
    assert(place(PLAY_OWN@[6]@) == 34) by {
        reveal_strlit("hosts");
    }
    assert(place(PLAY_OWN@[7]@) == 35) by {
        reveal_strlit("max_fail_percentage");
    }
    assert(place(PLAY_OWN@[8]@) == 36) by {
        reveal_strlit("order");
    }
    assert(place(PLAY_OWN@[9]@) == 37) by {
        reveal_strlit("post_tasks");
    }
    assert(place(PLAY_OWN@[10]@) == 38) by {
        reveal_strlit("pre_tasks");
    }
    assert(place(PLAY_OWN@[11]@) == 39) by {
        reveal_strlit("roles");
    }
    assert(place(PLAY_OWN@[12]@) == 40) by {
        reveal_strlit("serial");
    }
    assert(place(PLAY_OWN@[13]@) == 41) by {
        reveal_strlit("strategy");
    }
    assert(place(PLAY_OWN@[14]@) == 42) by {
        reveal_strlit("tasks");
    }
    assert(place(PLAY_OWN@[15]@) == 43) by {
        reveal_strlit("validate_argspec");
    }
    assert(place(PLAY_OWN@[16]@) == 44) by {
        reveal_strlit("vars_files");
    }
    assert(place(PLAY_OWN@[17]@) == 45) by {
        reveal_strlit("vars_prompt");
    }
}

proof fn block_own_places()
    ensures
        forall|i: int| 0 <= i < 3 ==> place((#[trigger] BLOCK_OWN@[i])@) == 46 + i,
{
    assert(place(BLOCK_OWN@[0]@) == 46) by {
        reveal_strlit("always");
    }
    assert(place(BLOCK_OWN@[1]@) == 47) by {
        reveal_strlit("block");
    }
    assert(place(BLOCK_OWN@[2]@) == 48) by {
        reveal_strlit("rescue");
    }
}

proof fn task_own_places()
    ensures
        forall|i: int| 0 <= i < 14 ==> place((#[trigger] TASK_OWN@[i])@) == 49 + i,
{
    assert(place(TASK_OWN@[0]@) == 49) by {
        reveal_strlit("action");
    }
    assert(place(TASK_OWN@[1]@) == 50) by {
        reveal_strlit("args");
    }
    assert(place(TASK_OWN@[2]@) == 51) by {
        reveal_strlit("async");
    }
    assert(place(TASK_OWN@[3]@) == 52) by {
        reveal_strlit("async_val");
    }
    assert(place(TASK_OWN@[4]@) == 53) by {
        reveal_strlit("changed_when");
    }
    assert(place(TASK_OWN@[5]@) == 54) by {
        reveal_strlit("delay");
    }
    assert(place(TASK_OWN@[6]@) == 55) by {
        reveal_strlit("failed_when");
    }
    assert(place(TASK_OWN@[7]@) == 56) by {
        reveal_strlit("loop");
    }
    assert(place(TASK_OWN@[8]@) == 57) by {
        reveal_strlit("loop_control");
    }
    assert(place(TASK_OWN@[9]@) == 58) by {
        reveal_strlit("loop_with");
    }
    assert(place(TASK_OWN@[10]@) == 59) by {
        reveal_strlit("poll");
    }
    assert(place(TASK_OWN@[11]@) == 60) by {
        reveal_strlit("register");
    }
    assert(place(TASK_OWN@[12]@) == 61) by {
        reveal_strlit("retries");
    }
    assert(place(TASK_OWN@[13]@) == 62) by {
        reveal_strlit("until");
    }
}

proof fn handler_own_places()
    ensures
        forall|i: int| 0 <= i < 1 ==> place((#[trigger] HANDLER_OWN@[i])@) == 63 + i,
{
    assert(place(HANDLER_OWN@[0]@) == 63) by {
        reveal_strlit("listen");
    }
}

proof fn role_metadata_own_places()
    ensures
        forall|i: int| 0 <= i < 4 ==> place((#[trigger] ROLE_METADATA_OWN@[i])@) == 64 + i,
{
    assert(place(ROLE_METADATA_OWN@[0]@) == 64) by {
        reveal_strlit("allow_duplicates");
    }
    assert(place(ROLE_METADATA_OWN@[1]@) == 65) by {
        reveal_strlit("argument_specs");
    }
    assert(place(ROLE_METADATA_OWN@[2]@) == 66) by {
        reveal_strlit("dependencies");
    }
    assert(place(ROLE_METADATA_OWN@[3]@) == 67) by {
        reveal_strlit("galaxy_info");
    }
}

proof fn loop_control_keys_places()
    ensures
        forall|i: int| 0 <= i < 7 ==> place((#[trigger] LOOP_CONTROL_KEYS@[i])@) == 69 + i,
{
    assert(place(LOOP_CONTROL_KEYS@[0]@) == 69) by {
        reveal_strlit("break_when");
    }
    assert(place(LOOP_CONTROL_KEYS@[1]@) == 70) by {
        reveal_strlit("extended");
    }
    assert(place(LOOP_CONTROL_KEYS@[2]@) == 71) by {
        reveal_strlit("extended_allitems");
    }
    assert(place(LOOP_CONTROL_KEYS@[3]@) == 72) by {
        reveal_strlit("index_var");
    }
    assert(place(LOOP_CONTROL_KEYS@[4]@) == 73) by {
        reveal_strlit("label");
    }
    assert(place(LOOP_CONTROL_KEYS@[5]@) == 74) by {
        reveal_strlit("loop_var");
    }
    assert(place(LOOP_CONTROL_KEYS@[6]@) == 75) by {
        reveal_strlit("pause");
    }
}

spec fn include_place(i: int) -> int {
    if i == 0 {
        49
    } else if i == 1 {
        50
    } else if i == 2 {
        24
    } else if i == 3 {
        8
    } else if i == 4 {
        11
    } else if i == 5 {
        56
    } else if i == 6 {
        57
    } else if i == 7 {
        58
    } else if i == 8 {
        14
    } else if i == 9 {
        15
    } else if i == 10 {
        60
    } else if i == 11 {
        18
    } else if i == 12 {
        23
    } else if i == 13 {
        20
    } else if i == 14 {
        21
    } else if i == 15 {
        22
    } else {
        63
    }
}

proof fn dynamic_include_places()
    ensures
        forall|i: int| 0 <= i < 16 ==> place((#[trigger] DYNAMIC_INCLUDE@[i])@) == include_place(i),
{
    assert(place(DYNAMIC_INCLUDE@[0]@) == 49) by {
        reveal_strlit("action");
    }
    assert(place(DYNAMIC_INCLUDE@[1]@) == 50) by {
        reveal_strlit("args");
    }
    assert(place(DYNAMIC_INCLUDE@[2]@) == 24) by {
        reveal_strlit("collections");
    }
    assert(place(DYNAMIC_INCLUDE@[3]@) == 8) by {
        reveal_strlit("debugger");
    }
    assert(place(DYNAMIC_INCLUDE@[4]@) == 11) by {
        reveal_strlit("ignore_errors");
    }
    assert(place(DYNAMIC_INCLUDE@[5]@) == 56) by {
        reveal_strlit("loop");
    }
    assert(place(DYNAMIC_INCLUDE@[6]@) == 57) by {
        reveal_strlit("loop_control");
    }
    assert(place(DYNAMIC_INCLUDE@[7]@) == 58) by {
        reveal_strlit("loop_with");
    }
    assert(place(DYNAMIC_INCLUDE@[8]@) == 14) by {
        reveal_strlit("name");
    }
    assert(place(DYNAMIC_INCLUDE@[9]@) == 15) by {
        reveal_strlit("no_log");
    }
    assert(place(DYNAMIC_INCLUDE@[10]@) == 60) by {
        reveal_strlit("register");
    }
    assert(place(DYNAMIC_INCLUDE@[11]@) == 18) by {
        reveal_strlit("run_once");
    }
    assert(place(DYNAMIC_INCLUDE@[12]@) == 23) by {
        reveal_strlit("tags");
    }
    assert(place(DYNAMIC_INCLUDE@[13]@) == 20) by {
        reveal_strlit("timeout");
    }
    assert(place(DYNAMIC_INCLUDE@[14]@) == 21) by {
        reveal_strlit("vars");
    }
    assert(place(DYNAMIC_INCLUDE@[15]@) == 22) by {
        reveal_strlit("when");
    }
}

/// Tables whose words have places that grow, as a table behind another.
spec fn grows(t: Seq<&'static str>, low: int, high: int) -> bool {
    &&& forall|i: int| 0 <= i < t.len() ==> low <= place((#[trigger] t[i])@) < high
    &&& forall|i: int, j: int|
        0 <= i < j < t.len() ==> place((#[trigger] t[i])@) < place((#[trigger] t[j])@)
}

proof fn behind(a: Seq<&'static str>, b: Seq<&'static str>, low: int, mid: int, high: int)
    requires
        grows(a, low, mid),
        grows(b, mid, high),
        low <= mid <= high,
    ensures
        grows(a + b, low, high),
{
    let t = a + b;
    let n = a.len() as int;
    assert forall|i: int| 0 <= i < t.len() implies low <= place((#[trigger] t[i])@) < high by {
        if i < n {
            assert(t[i] == a[i]);
        } else {
            assert(t[i] == b[i - n]);
        }
    }
    assert forall|i: int, j: int| 0 <= i < j < t.len() implies place((#[trigger] t[i])@) < place(
        (#[trigger] t[j])@,
    ) by {
        if j < n {
            assert(t[i] == a[i] && t[j] == a[j]);
        } else if i >= n {
            assert(t[i] == b[i - n] && t[j] == b[j - n]);
        } else {
            assert(t[i] == a[i] && t[j] == b[j - n]);
        }
    }
}

proof fn runnable_places()
    ensures
        grows(keywords::runnable_mixins(), 0, 28),
{
    base_places();
    conditional_places();
    taggable_places();
    collection_search_places();
    delegatable_places();
    notifiable_places();
    let a = BASE@ + CONDITIONAL@;
    behind(BASE@, CONDITIONAL@, 0, 22, 23);
    let b = a + TAGGABLE@;
    behind(a, TAGGABLE@, 0, 23, 24);
    let c = b + COLLECTION_SEARCH@;
    behind(b, COLLECTION_SEARCH@, 0, 24, 25);
    let d = c + DELEGATABLE@;
    behind(c, DELEGATABLE@, 0, 25, 27);
    behind(d, NOTIFIABLE@, 0, 27, 28);
}

proof fn play_places()
    ensures
        grows(keywords::vocabulary(KeyContext::Play), 0, 69),
{
    base_places();
    taggable_places();
    collection_search_places();
    play_own_places();
    let a = BASE@ + TAGGABLE@;
    behind(BASE@, TAGGABLE@, 0, 23, 24);
    let b = a + COLLECTION_SEARCH@;
    behind(a, COLLECTION_SEARCH@, 0, 24, 25);
    let c = b + PLAY_OWN@;
    behind(b, PLAY_OWN@, 0, 25, 46);
    let user: Seq<&'static str> = seq!["user"];
    assert(place(user[0]@) == 68) by {
        reveal_strlit("user");
    }
    behind(c, user, 0, 46, 69);
}

proof fn runnable_vocabularies()
    ensures
        grows(keywords::vocabulary(KeyContext::Block), 0, 49),
        grows(keywords::vocabulary(KeyContext::Task), 0, 63),
        grows(keywords::vocabulary(KeyContext::Handler), 0, 64),
{
    runnable_places();
    block_own_places();
    task_own_places();
    handler_own_places();
    behind(keywords::runnable_mixins(), BLOCK_OWN@, 0, 28, 49);
    behind(keywords::runnable_mixins(), TASK_OWN@, 0, 28, 63);
    behind(keywords::runnable_mixins() + TASK_OWN@, HANDLER_OWN@, 0, 63, 64);
}

proof fn metadata_places()
    ensures
        grows(keywords::vocabulary(KeyContext::RoleMetadata), 0, 68),
{
    base_places();
    collection_search_places();
    role_metadata_own_places();
    behind(BASE@, COLLECTION_SEARCH@, 0, 24, 25);
    behind(BASE@ + COLLECTION_SEARCH@, ROLE_METADATA_OWN@, 0, 25, 68);
}

proof fn include_places_differ(ctx: KeyContext, i: int, j: int)
    requires
        ctx == KeyContext::DynamicInclude || ctx == KeyContext::DynamicHandlerInclude,
        0 <= i < j < keywords::vocabulary(ctx).len(),
    ensures
        keywords::vocabulary(ctx)[i]@ != keywords::vocabulary(ctx)[j]@,
{
    dynamic_include_places();
    handler_own_places();
    let t = keywords::vocabulary(ctx);
    assert(t[i] == DYNAMIC_INCLUDE@[i]);
    if j < 16 {
        assert(t[j] == DYNAMIC_INCLUDE@[j]);
    } else {
        assert(t[j] == HANDLER_OWN@[0]);
    }
    assert(place(t[i]@) == include_place(i));
    assert(place(t[j]@) == include_place(j));
}

proof fn keys_differ(ctx: KeyContext, i: int, j: int)
    requires
        0 <= i < j < keywords::vocabulary(ctx).len(),
    ensures
        keywords::vocabulary(ctx)[i]@ != keywords::vocabulary(ctx)[j]@,
{
    match ctx {
        KeyContext::Play => play_places(),
        KeyContext::Block | KeyContext::Task | KeyContext::Handler => runnable_vocabularies(),
        KeyContext::RoleMetadata => metadata_places(),
        KeyContext::LoopControl => loop_control_keys_places(),
        KeyContext::DynamicInclude | KeyContext::DynamicHandlerInclude => include_places_differ(
            ctx,
            i,
            j,
        ),
    }
}

/// No two of the keys of a context are the same, so there are as many as its table has entries,
/// and they are the keys that [`keywords::legal_key`] accepts.
pub proof fn the_legal_keys_are_counted(ctx: KeyContext)
    ensures
        words(keywords::vocabulary(ctx)).no_duplicates(),
        keywords::vocabulary(ctx).len() == key_count(ctx),
        words(keywords::vocabulary(ctx)).to_set().len() == key_count(ctx),
        forall|key: Seq<char>| #[trigger]
            words(keywords::vocabulary(ctx)).to_set().contains(key) <==> keywords::listed(keywords::vocabulary(ctx), key),
{
    let t = keywords::vocabulary(ctx);
    assert forall|i: int, j: int|
        0 <= i < words(t).len() && 0 <= j < words(t).len() && i != j implies words(t)[i] != words(
        t,
    )[j] by {
        if i < j {
            keys_differ(ctx, i, j);
        } else {
            keys_differ(ctx, j, i);
        }
    }
    words(t).unique_seq_to_set();
    assert forall|key: Seq<char>| #[trigger]
        words(t).to_set().contains(key) <==> keywords::listed(t, key) by {
        if keywords::listed(t, key) {
            let i = choose|i: int| 0 <= i < t.len() && (#[trigger] t[i])@ == key;
            assert(words(t)[i] == key);
        }
        if words(t).contains(key) {
            let i = choose|i: int| 0 <= i < words(t).len() && words(t)[i] == key;
            assert(t[i]@ == key);
        }
    }
}

} // verus!
