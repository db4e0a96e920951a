//! What holds of replaying a history, whatever the history is.

use vstd::prelude::*;
use crate::tree::{
    has_entry, has_pair, has_path, is_create, replayed, with_child, with_entry, with_path, within,
    Content,
};
use crate::path::components;

verus! {

/// A pair that the contents already hold is added without any change.
pub proof fn law_known_pair_changes_nothing(content: Content, parent: Seq<char>, child: Seq<char>)
    requires
        has_pair(content, parent, child),
    ensures
        with_child(content, parent, child) == content,
{
}

proof fn lemma_known_path(content: Content, names: Seq<Seq<char>>)
    requires
        has_path(content, names),
    ensures
        with_path(content, names) == content,
    decreases names.len(),
{
    if names.len() >= 2 {
        let front = names.drop_last();
        assert forall|k: int| 0 <= k < front.len() - 1 implies has_pair(
            content,
            #[trigger] front[k],
            front[k + 1],
        ) by {
            assert(front[k] == names[k] && front[k + 1] == names[k + 1]);
        }
        lemma_known_path(content, front);
        let k = names.len() - 2;
        assert(has_pair(content, names[k], names[k + 1]));
    }
}

/// An entry whose pairs are all present in the contents leaves the contents
/// as they are.
pub proof fn law_known_entry_changes_nothing(content: Content, op: Seq<char>)
    requires
        has_entry(content, op),
    ensures
        with_entry(content, op) == content,
{
    if is_create(op) {
        lemma_known_path(content, components(op.skip(1)));
    }
}

proof fn lemma_child_grows(content: Content, parent: Seq<char>, child: Seq<char>)
    ensures
        within(content, with_child(content, parent, child)),
        has_pair(with_child(content, parent, child), parent, child),
{
    let after = with_child(content, parent, child);
    if !content.contains_key(parent) {
        assert(seq![child][0] == child);
    } else if !content[parent].contains(child) {
        let list = content[parent].push(child);
        assert(list[list.len() - 1] == child);
        assert forall|p: Seq<char>, c: Seq<char>| #[trigger] has_pair(content, p, c) implies has_pair(
            after,
            p,
            c,
        ) by {
            if p == parent {
                let k = choose|k: int| 0 <= k < content[parent].len() && content[parent][k] == c;
                assert(list[k] == c);
            }
        }
    }
}

proof fn lemma_within_chain(a: Content, b: Content, c: Content)
    requires
        within(a, b),
        within(b, c),
    ensures
        within(a, c),
{
    assert forall|p: Seq<char>, ch: Seq<char>| #[trigger] has_pair(a, p, ch) implies has_pair(
        c,
        p,
        ch,
    ) by {
        assert(has_pair(b, p, ch));
    }
}

proof fn lemma_path_carries(small: Content, large: Content, names: Seq<Seq<char>>)
    requires
        within(small, large),
        has_path(small, names),
    ensures
        has_path(large, names),
{
    assert forall|k: int| 0 <= k < names.len() - 1 implies has_pair(
        large,
        #[trigger] names[k],
        names[k + 1],
    ) by {
        assert(has_pair(small, names[k], names[k + 1]));
    }
}

proof fn lemma_path_grows(content: Content, names: Seq<Seq<char>>)
    ensures
        within(content, with_path(content, names)),
        has_path(with_path(content, names), names),
    decreases names.len(),
{
    if names.len() >= 2 {
        let front = names.drop_last();
        let mid = with_path(content, front);
        let after = with_path(content, names);
        let k = names.len() - 2;
        lemma_path_grows(content, front);
        lemma_child_grows(mid, names[k], names[k + 1]);
        lemma_within_chain(content, mid, after);
        assert forall|j: int| 0 <= j < names.len() - 1 implies has_pair(
            after,
            #[trigger] names[j],
            names[j + 1],
        ) by {
            if j < k {
                assert(front[j] == names[j] && front[j + 1] == names[j + 1]);
                assert(has_pair(mid, front[j], front[j + 1]));
            }
        }
    }
}

proof fn lemma_entry_grows(content: Content, op: Seq<char>)
    ensures
        within(content, with_entry(content, op)),
        has_entry(with_entry(content, op), op),
{
    if is_create(op) {
        lemma_path_grows(content, components(op.skip(1)));
    }
}

/// Replaying never removes a directory or a child.
pub proof fn law_replay_only_adds(content: Content, history: Seq<Seq<char>>, from: int, to: int)
    ensures
        within(content, replayed(content, history, from, to)),
    decreases to - from,
{
    if from < to {
        let mid = replayed(content, history, from, to - 1);
        law_replay_only_adds(content, history, from, to - 1);
        lemma_entry_grows(mid, history[to - 1]);
        lemma_within_chain(content, mid, replayed(content, history, from, to));
    }
}

proof fn lemma_replayed_holds_entries(
    content: Content,
    history: Seq<Seq<char>>,
    from: int,
    to: int,
    k: int,
)
    requires
        from <= k < to,
    ensures
        has_entry(replayed(content, history, from, to), history[k]),
    decreases to - from,
{
    let mid = replayed(content, history, from, to - 1);
    let after = replayed(content, history, from, to);
    lemma_entry_grows(mid, history[to - 1]);
    if k < to - 1 {
        lemma_replayed_holds_entries(content, history, from, to - 1, k);
        if is_create(history[k]) {
            lemma_path_carries(mid, after, components(history[k].skip(1)));
        }
    }
}

proof fn lemma_known_entries(content: Content, history: Seq<Seq<char>>, from: int, to: int)
    requires
        forall|k: int| from <= k < to ==> has_entry(content, #[trigger] history[k]),
    ensures
        replayed(content, history, from, to) == content,
    decreases to - from,
{
    if from < to {
        lemma_known_entries(content, history, from, to - 1);
        law_known_entry_changes_nothing(content, history[to - 1]);
    }
}

/// Replaying the same entries a second time changes nothing: the contents
/// after two replays are the contents after one.
pub proof fn law_replay_twice(content: Content, history: Seq<Seq<char>>, from: int, to: int)
    ensures
        replayed(replayed(content, history, from, to), history, from, to) == replayed(
            content,
            history,
            from,
            to,
        ),
{
    let once = replayed(content, history, from, to);
    assert forall|k: int| from <= k < to implies has_entry(once, #[trigger] history[k]) by {
        lemma_replayed_holds_entries(content, history, from, to, k);
    }
    lemma_known_entries(once, history, from, to);
}

/// A replay may stop anywhere and go on from there: the result is that of
/// one replay over the whole range.
pub proof fn law_replay_in_two_steps(
    content: Content,
    history: Seq<Seq<char>>,
    from: int,
    mid: int,
    to: int,
)
    requires
        from <= mid <= to,
    ensures
        replayed(replayed(content, history, from, mid), history, mid, to) == replayed(
            content,
            history,
            from,
            to,
        ),
    decreases to - mid,
{
    if mid < to {
        law_replay_in_two_steps(content, history, from, mid, to - 1);
    }
}

/// A replay reads only the entries of its range: two histories that agree
/// there replay alike.
pub proof fn law_replay_reads_its_range(
    content: Content,
    first: Seq<Seq<char>>,
    second: Seq<Seq<char>>,
    from: int,
    to: int,
)
    requires
        forall|k: int| from <= k < to ==> first[k] == second[k],
    ensures
        replayed(content, first, from, to) == replayed(content, second, from, to),
    decreases to - from,
{
    if from < to {
        law_replay_reads_its_range(content, first, second, from, to - 1);
    }
}

/// Catching up: contents that are the replay of the first `known` entries,
/// replayed from any index up to `known` on, are the replay of the whole
/// history.
pub proof fn law_catch_up(history: Seq<Seq<char>>, known: int, from: int)
    requires
        0 <= from <= known <= history.len(),
    ensures
        replayed(
            replayed(Map::empty(), history, 0, known),
            history,
            from,
            history.len() as int,
        ) == replayed(Map::empty(), history, 0, history.len() as int),
{
    let empty: Content = Map::empty();
    let n = history.len() as int;
    let have = replayed(empty, history, 0, known);
    // The entries from..known are already in `have`, so replaying them adds nothing.
    assert forall|k: int| from <= k < known implies has_entry(have, #[trigger] history[k]) by {
        lemma_replayed_holds_entries(empty, history, 0, known, k);
    }
    lemma_known_entries(have, history, from, known);
    law_replay_in_two_steps(have, history, from, known, n);
    law_replay_in_two_steps(empty, history, 0, known, n);
}

/// A tree that is in step with its history stays so when it appends
/// entries and replays from its old version on.
pub proof fn law_in_step_after_appending(history: Seq<Seq<char>>, more: Seq<Seq<char>>)
    ensures
        replayed(
            replayed(Map::empty(), history, 0, history.len() as int),
            history + more,
            history.len() as int,
            (history + more).len() as int,
        ) == replayed(Map::empty(), history + more, 0, (history + more).len() as int),
{
    let all = history + more;
    law_replay_reads_its_range(Map::empty(), history, all, 0, history.len() as int);
    law_replay_in_two_steps(Map::empty(), all, 0, history.len() as int, all.len() as int);
}

} // verus!
