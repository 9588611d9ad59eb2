//! Counts of tool calls by caller and tool.

use crate::numbers::Nat;
use crate::principal::Principal;
use crate::table::{
    contents, keys_differ, lemma_contents_at, lemma_contents_from, lemma_next_pair, Table,
};
use vstd::prelude::*;

verus! {

/// How often each tool was called.
pub type ToolCounts = Map<Seq<char>, u64>;

/// How often each caller called each tool.
pub type UsageCounts = Map<Seq<u8>, ToolCounts>;

/// The sum of `a` and `b`, or the largest `u64` where the sum is beyond it.
pub open spec fn saturating_sum(a: u64, b: u64) -> u64 {
    if a + b > u64::MAX {
        u64::MAX
    } else {
        (a + b) as u64
    }
}

/// The count of `tool`, zero if there is none.
pub open spec fn count_in(tools: ToolCounts, tool: Seq<char>) -> u64 {
    if tools.contains_key(tool) {
        tools[tool]
    } else {
        0
    }
}

/// The tools that `caller` called.
pub open spec fn tools_of(usage: UsageCounts, caller: Seq<u8>) -> ToolCounts {
    if usage.contains_key(caller) {
        usage[caller]
    } else {
        Map::empty()
    }
}

/// `usage` after one more call of `tool` by `caller`.
pub open spec fn with_call(usage: UsageCounts, caller: Seq<u8>, tool: Seq<char>) -> UsageCounts {
    let tools = tools_of(usage, caller);
    usage.insert(caller, tools.insert(tool, saturating_sum(count_in(tools, tool), 1)))
}

/// The counts of `a` and `b` together.
pub open spec fn tools_together(a: ToolCounts, b: ToolCounts) -> ToolCounts {
    Map::new(
        |tool: Seq<char>| a.contains_key(tool) || b.contains_key(tool),
        |tool: Seq<char>| saturating_sum(count_in(a, tool), count_in(b, tool)),
    )
}

/// The usage of `a` and `b` together.
pub open spec fn usage_together(a: UsageCounts, b: UsageCounts) -> UsageCounts {
    Map::new(
        |caller: Seq<u8>| a.contains_key(caller) || b.contains_key(caller),
        |caller: Seq<u8>| tools_together(tools_of(a, caller), tools_of(b, caller)),
    )
}

/// No tool has the count zero.
pub open spec fn counts_positive(tools: ToolCounts) -> bool {
    forall|tool: Seq<char>| #[trigger] tools.contains_key(tool) ==> tools[tool] > 0
}

/// Every caller in `usage` called some tool, and no count is zero.
pub open spec fn only_calls(usage: UsageCounts) -> bool {
    forall|caller: Seq<u8>| #[trigger]
        usage.contains_key(caller) ==> usage[caller] != ToolCounts::empty() && counts_positive(
            usage[caller],
        )
}

/// One caller's usage of one tool.
#[derive(Clone, Debug, PartialEq, Eq)]
pub struct CallerActivity {
    /// Principal that invoked the tool.
    pub caller: Principal,
    /// Application-defined tool name or identifier.
    pub tool_id: String,
    /// Number of calls made by `caller` to `tool_id`.
    pub call_count: Nat,
}

/// `activity` lists `usage`: one item for each caller and tool with a count,
/// with that count, and the items of one caller next to each other.
pub open spec fn lists_usage(activity: Seq<CallerActivity>, usage: UsageCounts) -> bool {
    &&& forall|i: int|
        0 <= i < activity.len() ==> {
            let item = #[trigger] activity[i];
            &&& usage.contains_key(item.caller@)
            &&& usage[item.caller@].contains_key(item.tool_id@)
            &&& item.call_count@ == usage[item.caller@][item.tool_id@]
        }
    &&& forall|caller: Seq<u8>, tool: Seq<char>|
        usage.contains_key(caller) && #[trigger] usage[caller].contains_key(tool) ==> exists|i: int|
            0 <= i < activity.len() && (#[trigger] activity[i]).caller@ == caller
                && activity[i].tool_id@ == tool
    &&& forall|i: int, j: int|
        0 <= i < j < activity.len() ==> (#[trigger] activity[i]).caller@ != (
        #[trigger] activity[j]).caller@ || activity[i].tool_id@ != activity[j].tool_id@
    &&& forall|i: int, j: int, k: int|
        0 <= i < j < k < activity.len() && (#[trigger] activity[i]).caller@ == (
        #[trigger] activity[k]).caller@ ==> (#[trigger] activity[j]).caller@
            == activity[i].caller@
}

/// Call counts by caller and tool.
pub struct UsageData {
    callers: Table<Principal, Table<String, u64>>,
}

/// The counts that the tables in `callers` hold.
spec fn counts_of(callers: Map<Seq<u8>, Table<String, u64>>) -> UsageCounts {
    callers.map_values(|tools: Table<String, u64>| tools@)
}

/// The tables in `callers` are well formed.
spec fn tables_wf(callers: Map<Seq<u8>, Table<String, u64>>) -> bool {
    forall|caller: Seq<u8>| #[trigger] callers.contains_key(caller) ==> callers[caller].wf()
}

impl View for UsageData {
    type V = UsageCounts;

    closed spec fn view(&self) -> UsageCounts {
        counts_of(self.callers@)
    }
}

/// Adds the counts in `tools` to those in `current`.
fn add_tools(current: &mut Table<String, u64>, tools: &Table<String, u64>)
    requires
        old(current).wf(),
        tools.wf(),
    ensures
        final(current).wf(),
        final(current)@ == tools_together(old(current)@, tools@),
{
    let ghost pairs = tools.sequence();
    let len: usize = tools.len();
    let mut i: usize = 0;
    proof {
        tools.lemma_sequence();
        assert(pairs.take(0) == Seq::<(String, u64)>::empty());
        assert(current@ =~= tools_together(old(current)@, Map::empty()));
    }
    while i < len
        invariant
            i <= len,
            len == pairs.len(),
            pairs == tools.sequence(),
            keys_differ(pairs),
            current.wf(),
            current@ == tools_together(old(current)@, contents(pairs.take(i as int))),
        decreases len - i,
    {
        let pair: &(String, u64) = tools.pair(i);
        let count: &mut u64 = current.slot(pair.0.clone(), 0);
        *count = count.saturating_add(pair.1);
        proof {
            lemma_next_pair(pairs, i as int);
            let done = contents(pairs.take(i as int));
            assert(current@ =~= tools_together(
                old(current)@,
                done.insert(pair.0@, pair.1),
            ));
        }
        i = i + 1;
    }
    proof {
        assert(pairs.take(len as int) == pairs);
    }
}

/// Place `(a, b)` comes before place `(i, j)`: an earlier caller, or an earlier
/// tool of the same caller.
spec fn place_before(a: int, b: int, i: int, j: int) -> bool {
    a < i || (a == i && b < j)
}

/// Item `n` of `activity` comes from the tool at place `origin[n].1` of the
/// caller at place `origin[n].0`; the places ascend, and they are all those
/// before `(i, j)`.
spec fn comes_from(
    activity: Seq<CallerActivity>,
    origin: Seq<(int, int)>,
    pairs: Seq<(Principal, Table<String, u64>)>,
    i: int,
    j: int,
) -> bool {
    &&& origin.len() == activity.len()
    &&& forall|n: int|
        0 <= n < origin.len() ==> {
            let place = #[trigger] origin[n];
            &&& 0 <= place.0 < pairs.len()
            &&& 0 <= place.1 < pairs[place.0].1.sequence().len()
            &&& place_before(place.0, place.1, i, j)
            &&& activity[n].caller@ == pairs[place.0].0@
            &&& activity[n].tool_id@ == pairs[place.0].1.sequence()[place.1].0@
            &&& activity[n].call_count@ == pairs[place.0].1.sequence()[place.1].1
        }
    &&& forall|m: int, n: int|
        0 <= m < n < origin.len() ==> {
            let x = #[trigger] origin[m];
            let y = #[trigger] origin[n];
            place_before(x.0, x.1, y.0, y.1)
        }
    &&& forall|a: int, b: int|
        place_before(a, b, i, j) && 0 <= a < pairs.len() && 0 <= b < pairs[a].1.sequence().len()
            ==> #[trigger] origin.contains((a, b))
}

/// Items from every place list the usage.
proof fn lemma_activity_lists_usage(
    activity: Seq<CallerActivity>,
    origin: Seq<(int, int)>,
    pairs: Seq<(Principal, Table<String, u64>)>,
    usage: UsageData,
)
    requires
        usage.wf(),
        pairs == usage.callers.sequence(),
        comes_from(activity, origin, pairs, pairs.len() as int, 0),
    ensures
        lists_usage(activity, usage@),
{
    usage.callers.lemma_sequence();
    assert forall|n: int| 0 <= n < activity.len() implies {
        let item = #[trigger] activity[n];
        &&& usage@.contains_key(item.caller@)
        &&& usage@[item.caller@].contains_key(item.tool_id@)
        &&& item.call_count@ == usage@[item.caller@][item.tool_id@]
    } by {
        let place = origin[n];
        lemma_contents_at(pairs, place.0);
        pairs[place.0].1.lemma_sequence();
        lemma_contents_at(pairs[place.0].1.sequence(), place.1);
    }
    assert forall|caller: Seq<u8>, tool: Seq<char>|
        usage@.contains_key(caller) && #[trigger] usage@[caller].contains_key(
            tool,
        ) implies exists|n: int|
        0 <= n < activity.len() && (#[trigger] activity[n]).caller@ == caller
            && activity[n].tool_id@ == tool by {
        let a = lemma_contents_from(pairs, caller);
        lemma_contents_at(pairs, a);
        pairs[a].1.lemma_sequence();
        let b = lemma_contents_from(pairs[a].1.sequence(), tool);
        assert(origin.contains((a, b)));
        let n = choose|n: int| 0 <= n < origin.len() && origin[n] == (a, b);
        assert(activity[n].caller@ == caller && activity[n].tool_id@ == tool);
    }
    assert forall|m: int, n: int| 0 <= m < n < activity.len() implies (
    #[trigger] activity[m]).caller@ != (#[trigger] activity[n]).caller@ || activity[m].tool_id@
        != activity[n].tool_id@ by {
        let x = origin[m];
        let y = origin[n];
        lemma_contents_at(pairs, x.0);
        pairs[x.0].1.lemma_sequence();
        if x.0 == y.0 {
            let tools = pairs[x.0].1.sequence();
            assert(tools[x.1].0@ != tools[y.1].0@);
        } else {
            assert(pairs[x.0].0@ != pairs[y.0].0@);
        }
    }
    assert forall|i: int, j: int, k: int|
        0 <= i < j < k < activity.len() && (#[trigger] activity[i]).caller@ == (
        #[trigger] activity[k]).caller@ implies (#[trigger] activity[j]).caller@
        == activity[i].caller@ by {
        let x = origin[i];
        let y = origin[j];
        let z = origin[k];
        if x.0 != z.0 {
            assert(pairs[x.0].0@ != pairs[z.0].0@);
        }
    }
}

impl UsageData {
    /// The tables are well formed, every caller called some tool, and no count
    /// is zero.
    pub closed spec fn wf(self) -> bool {
        &&& self.callers.wf()
        &&& tables_wf(self.callers@)
        &&& only_calls(self@)
    }

    /// What `wf` says of the counts.
    pub proof fn lemma_wf(self)
        requires
            self.wf(),
        ensures
            only_calls(self@),
    {
    }

    /// No usage.
    pub fn new() -> (usage: UsageData)
        ensures
            usage.wf(),
            usage@ == UsageCounts::empty(),
    {
        let usage = UsageData { callers: Table::new() };
        assert(usage@ =~= UsageCounts::empty());
        usage
    }

    /// Whether there is no usage.
    pub fn is_empty(&self) -> (empty: bool)
        ensures
            empty == (self@ == UsageCounts::empty()),
    {
        proof {
            if self@ == UsageCounts::empty() {
                assert forall|caller: Seq<u8>| !self.callers@.contains_key(caller) by {
                    assert(!self@.contains_key(caller));
                }
                assert(self.callers@ =~= Map::empty());
            } else if self.callers@ == Map::<Seq<u8>, Table<String, u64>>::empty() {
                assert(self@ =~= UsageCounts::empty());
            }
        }
        self.callers.is_empty()
    }

    /// The count of `caller` for `tool`.
    pub fn count(&self, caller: &Principal, tool: &String) -> (count: Option<u64>)
        requires
            self.wf(),
        ensures
            match count {
                Some(n) => {
                    &&& self@.contains_key(caller@)
                    &&& self@[caller@].contains_key(tool@)
                    &&& n == self@[caller@][tool@]
                },
                None => !self@.contains_key(caller@) || !self@[caller@].contains_key(tool@),
            },
    {
        match self.callers.get(caller) {
            Some(tools) => match tools.get(tool) {
                Some(n) => Some(*n),
                None => None,
            },
            None => None,
        }
    }

    /// Adds one call of `tool` by `caller`.
    pub fn record(&mut self, caller: Principal, tool: String)
        requires
            old(self).wf(),
        ensures
            final(self).wf(),
            final(self)@ == with_call(old(self)@, caller@, tool@),
    {
        let tools: &mut Table<String, u64> = self.callers.slot(caller, Table::new());
        let count: &mut u64 = tools.slot(tool, 0);
        *count = count.saturating_add(1);
        proof {
            let after = with_call(old(self)@, caller@, tool@);
            assert(self@ =~= after);
            assert(only_calls(after)) by {
                assert(after[caller@].contains_key(tool@));
            }
        }
    }

    /// The usage as a list.
    pub fn activity(&self) -> (activity: Vec<CallerActivity>)
        requires
            self.wf(),
        ensures
            lists_usage(activity@, self@),
    {
        let ghost pairs = self.callers.sequence();
        let len: usize = self.callers.len();
        let mut activity: Vec<CallerActivity> = Vec::new();
        let ghost mut origin: Seq<(int, int)> = Seq::empty();
        let mut i: usize = 0;
        proof {
            self.callers.lemma_sequence();
        }
        while i < len
            invariant
                i <= len,
                len == pairs.len(),
                pairs == self.callers.sequence(),
                keys_differ(pairs),
                contents(pairs) == self.callers@,
                tables_wf(self.callers@),
                comes_from(activity@, origin, pairs, i as int, 0),
            decreases len - i,
        {
            let pair: &(Principal, Table<String, u64>) = self.callers.pair(i);
            let tools: &Table<String, u64> = &pair.1;
            let tools_len: usize = tools.len();
            let mut j: usize = 0;
            while j < tools_len
                invariant
                    i < len,
                    len == pairs.len(),
                    pairs == self.callers.sequence(),
                    *pair == pairs[i as int],
                    *tools == pair.1,
                    j <= tools_len,
                    tools_len == tools.sequence().len(),
                    comes_from(activity@, origin, pairs, i as int, j as int),
                decreases tools_len - j,
            {
                let tool: &(String, u64) = tools.pair(j);
                let item = CallerActivity {
                    caller: pair.0,
                    tool_id: tool.0.clone(),
                    call_count: Nat::from(tool.1),
                };
                let ghost origin_before = origin;
                activity.push(item);
                proof {
                    origin = origin.push((i as int, j as int));
                    assert forall|a: int, b: int|
                        place_before(a, b, i as int, j + 1) && 0 <= a < pairs.len() && 0 <= b
                            < pairs[a].1.sequence().len() implies #[trigger] origin.contains(
                        (a, b),
                    ) by {
                        if a == i && b == j {
                            assert(origin[origin.len() - 1] == (a, b));
                        } else {
                            assert(origin_before.contains((a, b)));
                            let n = choose|n: int|
                                0 <= n < origin_before.len() && origin_before[n] == (a, b);
                            assert(origin[n] == (a, b));
                        }
                    }
                }
                j = j + 1;
            }
            i = i + 1;
        }
        proof {
            lemma_activity_lists_usage(activity@, origin, pairs, *self);
        }
        activity
    }

    /// Adds the usage in `other`.
    pub fn add_usage(&mut self, other: UsageData)
        requires
            old(self).wf(),
            other.wf(),
        ensures
            final(self).wf(),
            final(self)@ == usage_together(old(self)@, other@),
    {
        let ghost pairs = other.callers.sequence();
        let len: usize = other.callers.len();
        let mut i: usize = 0;
        proof {
            other.callers.lemma_sequence();
            assert(pairs.take(0) == Seq::<(Principal, Table<String, u64>)>::empty());
            lemma_together_with_nothing(old(self)@);
            assert(counts_of(contents(pairs.take(0))) =~= UsageCounts::empty());
        }
        while i < len
            invariant
                i <= len,
                len == pairs.len(),
                pairs == other.callers.sequence(),
                keys_differ(pairs),
                contents(pairs) == other.callers@,
                tables_wf(other.callers@),
                other.wf(),
                self.wf(),
                self@ == usage_together(old(self)@, counts_of(contents(pairs.take(i as int)))),
            decreases len - i,
        {
            let ghost before = *self;
            let pair: &(Principal, Table<String, u64>) = other.callers.pair(i);
            proof {
                lemma_contents_at(pairs, i as int);
                lemma_next_pair(pairs, i as int);
            }
            let current: &mut Table<String, u64> = self.callers.slot(pair.0, Table::new());
            add_tools(current, &pair.1);
            proof {
                let done = counts_of(contents(pairs.take(i as int)));
                let next = counts_of(contents(pairs.take(i + 1)));
                assert(next =~= done.insert(pair.0@, pair.1@));
                lemma_together_insert(old(self)@, done, pair.0@, pair.1@);
                assert(self@ =~= before@.insert(
                    pair.0@,
                    tools_together(tools_of(before@, pair.0@), pair.1@),
                ));
                assert(other@.contains_key(pair.0@));
                lemma_together_positive(tools_of(before@, pair.0@), pair.1@);
            }
            i = i + 1;
        }
        proof {
            assert(pairs.take(len as int) == pairs);
        }
    }
}

/// Nothing added leaves the usage as it was.
pub proof fn lemma_together_with_nothing(usage: UsageCounts)
    ensures
        usage_together(usage, UsageCounts::empty()) == usage,
        usage_together(UsageCounts::empty(), usage) == usage,
{
    assert forall|caller: Seq<u8>| #[trigger] usage.contains_key(caller) implies tools_together(
        usage[caller],
        ToolCounts::empty(),
    ) == usage[caller] && tools_together(ToolCounts::empty(), usage[caller]) == usage[caller] by {
        assert(tools_together(usage[caller], ToolCounts::empty()) =~= usage[caller]);
        assert(tools_together(ToolCounts::empty(), usage[caller]) =~= usage[caller]);
    }
    assert(usage_together(usage, UsageCounts::empty()) =~= usage);
    assert(usage_together(UsageCounts::empty(), usage) =~= usage);
}

/// A caller that is new on the right adds to the caller's tools on the left.
proof fn lemma_together_insert(
    left: UsageCounts,
    right: UsageCounts,
    caller: Seq<u8>,
    tools: ToolCounts,
)
    requires
        !right.contains_key(caller),
    ensures
        usage_together(left, right.insert(caller, tools)) == usage_together(left, right).insert(
            caller,
            tools_together(tools_of(usage_together(left, right), caller), tools),
        ),
{
    let both = usage_together(left, right);
    assert(tools_of(both, caller) =~= tools_of(left, caller));
    assert(usage_together(left, right.insert(caller, tools)) =~= both.insert(
        caller,
        tools_together(tools_of(both, caller), tools),
    ));
}

/// Counts of calls stay counts of calls when they are added up.
proof fn lemma_together_positive(a: ToolCounts, b: ToolCounts)
    requires
        counts_positive(a),
        counts_positive(b),
        b != ToolCounts::empty(),
    ensures
        counts_positive(tools_together(a, b)),
        tools_together(a, b) != ToolCounts::empty(),
{
    if tools_together(a, b) == ToolCounts::empty() {
        assert forall|tool: Seq<char>| !b.contains_key(tool) by {
            assert(!tools_together(a, b).contains_key(tool));
        }
        assert(b =~= ToolCounts::empty());
    }
}

} // verus!
