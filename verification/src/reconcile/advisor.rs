//! What is recommended for a merge.
use vstd::prelude::*;
use vstd::string::*;

use super::merge::{Decision, MergeResult};
use crate::text;

verus! {

/// How sure a recommendation is.
#[derive(Debug, Clone, Copy, PartialEq, Eq, Structural)]
pub enum Confidence {
    High,
    Medium,
    Low,
}

/// What is recommended.
#[derive(Debug, Clone, Copy, PartialEq, Eq, Structural)]
pub enum Action {
    /// Merge the incoming version into the base.
    UnionIntoBase,
    /// Set the incoming version aside.
    KeepSeparate,
    /// Send it to the shared directory.
    PassthroughRestore,
    /// Keep both versions.
    KeepBoth,
}

/// A recommendation and why it is made.
#[derive(Debug)]
pub struct Recommendation {
    pub action: Action,
    pub confidence: Confidence,
    pub rationale: String,
}

/// Why a merge is recommended or not.
pub open spec fn rationale(d: Decision, overlap: nat) -> Seq<char> {
    match d {
        Decision::LogOnly =>
            "incoming 仅日志记录、无 transcript；base 正文全保留 + 日志并入，无损"@,
        Decision::CompactionBridge => "检出 isCompactSummary 桥，属合法 compaction 续写 → 并入"@,
        Decision::Incremental => "transcript uuid 有交集（overlap="@ + text::decimal(overlap)
            + "），uuid 并集无丢失"@,
        Decision::SuspectReuse =>
            "transcript uuid 全disjoint、无 compaction 桥、时间窗不相交 → 疑 session-id 重用；默认隔离保两份，可经确认改并入"@,
    }
}

/// What is recommended for a merge: to merge, but for two sessions that seem to share a name by
/// accident. Conflicts make a merge of overlapping sessions less sure.
pub fn recommend(r: &MergeResult) -> (rec: Recommendation)
    ensures
        rec.action == (if r.decision == Decision::SuspectReuse {
            Action::KeepSeparate
        } else {
            Action::UnionIntoBase
        }),
        rec.confidence == (match r.decision {
            Decision::SuspectReuse => Confidence::Low,
            Decision::Incremental => if r.conflicts@.len() == 0 {
                Confidence::High
            } else {
                Confidence::Medium
            },
            _ => Confidence::High,
        }),
        rec.rationale@ == rationale(r.decision, r.evidence.uuid_overlap as nat),
{
    match r.decision {
        Decision::LogOnly => Recommendation {
            action: Action::UnionIntoBase,
            confidence: Confidence::High,
            rationale: text::copy_str(
                "incoming 仅日志记录、无 transcript；base 正文全保留 + 日志并入，无损",
            ),
        },
        Decision::CompactionBridge => Recommendation {
            action: Action::UnionIntoBase,
            confidence: Confidence::High,
            rationale: text::copy_str(
                "检出 isCompactSummary 桥，属合法 compaction 续写 → 并入",
            ),
        },
        Decision::Incremental => {
            let mut why: String = String::new();
            why.append("transcript uuid 有交集（overlap=");
            text::push_decimal(&mut why, r.evidence.uuid_overlap as u64);
            why.append("），uuid 并集无丢失");
            assert(why@ =~= rationale(r.decision, r.evidence.uuid_overlap as nat));
            Recommendation {
                action: Action::UnionIntoBase,
                confidence: if r.conflicts.len() == 0 {
                    Confidence::High
                } else {
                    Confidence::Medium
                },
                rationale: why,
            }
        },
        Decision::SuspectReuse => Recommendation {
            action: Action::KeepSeparate,
            confidence: Confidence::Low,
            rationale: text::copy_str(
                "transcript uuid 全disjoint、无 compaction 桥、时间窗不相交 → 疑 session-id 重用；默认隔离保两份，可经确认改并入",
            ),
        },
    }
}

/// The reason for merging two sessions that overlap tells how many records they share, and each
/// decision has a reason of its own.
pub proof fn reason_tells_the_overlap(overlap: nat)
    ensures
        text::stands_in(rationale(Decision::Incremental, overlap), text::decimal(overlap)),
        text::stands_in(rationale(Decision::CompactionBridge, overlap), "isCompactSummary"@),
        text::stands_in(rationale(Decision::SuspectReuse, overlap), "session-id"@),
        text::stands_in(rationale(Decision::LogOnly, overlap), "incoming"@),
{
    text::part_stands_in(
        "transcript uuid 有交集（overlap="@,
        text::decimal(overlap),
        "），uuid 并集无丢失"@,
    );
    reveal_strlit("检出 isCompactSummary 桥，属合法 compaction 续写 → 并入");
    reveal_strlit("isCompactSummary");
    let a = rationale(Decision::CompactionBridge, overlap);
    assert(a.subrange(3int, 3int + "isCompactSummary"@.len()) =~= "isCompactSummary"@);
    reveal_strlit(
        "transcript uuid 全disjoint、无 compaction 桥、时间窗不相交 → 疑 session-id 重用；默认隔离保两份，可经确认改并入",
    );
    reveal_strlit("session-id");
    let b = rationale(Decision::SuspectReuse, overlap);
    assert(b.subrange(52int, 52int + "session-id"@.len()) =~= "session-id"@);
    reveal_strlit("incoming 仅日志记录、无 transcript；base 正文全保留 + 日志并入，无损");
    reveal_strlit("incoming");
    let c = rationale(Decision::LogOnly, overlap);
    assert(c.subrange(0int, 0int + "incoming"@.len()) =~= "incoming"@);
}

} // verus!
