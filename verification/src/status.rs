//! Daemon health tracking in the Nagios style: a set of keyed issues, each with
//! a severity and a message, summarised into one status line.
use vstd::prelude::*;
use vstd::relations::sorted_by;
use crate::order::{lex_order, sort_strings};
use crate::text::{join, join_strings, chars_of, starts_with_chars, str_eq, concat};

verus! {

/// Nagios-compatible status levels, from least to most severe.
#[derive(Debug, Clone, Copy, PartialEq, Eq, Structural, PartialOrd, Ord, Hash)]
pub enum StatusLevel {
    /// Service is operating normally
    Okay,
    /// Warning condition detected
    Warning,
    /// Critical failure or fencing decision reached
    Critical,
}

impl StatusLevel {
    /// The word that names the level in the status line.
    pub open spec fn spec_label(self) -> Seq<char> {
        match self {
            StatusLevel::Okay => "OK"@,
            StatusLevel::Warning => "WARNING"@,
            StatusLevel::Critical => "CRITICAL"@,
        }
    }

    /// The word that names the level in the status line ("OK", "WARNING", "CRITICAL").
    pub fn label(&self) -> (r: &'static str)
        ensures
            r@ == self.spec_label(),
    {
        match self {
            StatusLevel::Okay => "OK",
            StatusLevel::Warning => "WARNING",
            StatusLevel::Critical => "CRITICAL",
        }
    }
}

/// One recorded issue.
pub struct Issue {
    pub key: String,
    pub level: StatusLevel,
    pub message: String,
}

/// The model of an issue list: key, level and message of each issue, in insertion order.
pub type IssueEntries = Seq<(Seq<char>, StatusLevel, Seq<char>)>;

pub open spec fn unique_keys(e: IssueEntries) -> bool {
    forall|i: int, j: int| 0 <= i < e.len() && 0 <= j < e.len() && i != j ==> e[i].0 != e[j].0
}

pub open spec fn has_key(e: IssueEntries, k: Seq<char>) -> bool {
    exists|i: int| 0 <= i < e.len() && e[i].0 == k
}

pub open spec fn key_index(e: IssueEntries, k: Seq<char>) -> int {
    choose|i: int| 0 <= i < e.len() && e[i].0 == k
}

/// The issue recorded under a key, if any.
pub open spec fn lookup(e: IssueEntries, k: Seq<char>) -> Option<(StatusLevel, Seq<char>)> {
    if has_key(e, k) {
        Some((e[key_index(e, k)].1, e[key_index(e, k)].2))
    } else {
        None
    }
}

/// The entries after recording an issue: an existing one under the key is replaced in place.
pub open spec fn with_issue(e: IssueEntries, k: Seq<char>, l: StatusLevel, m: Seq<char>) -> IssueEntries {
    if has_key(e, k) {
        e.update(key_index(e, k), (k, l, m))
    } else {
        e.push((k, l, m))
    }
}

/// The entries after removing the issue under a key.
pub open spec fn without_issue(e: IssueEntries, k: Seq<char>) -> IssueEntries {
    if has_key(e, k) {
        e.remove(key_index(e, k))
    } else {
        e
    }
}

/// The entries whose keys do not start with the prefix.
pub open spec fn without_prefix(e: IssueEntries, p: Seq<char>) -> IssueEntries {
    e.filter(|x: (Seq<char>, StatusLevel, Seq<char>)| !p.is_prefix_of(x.0))
}

pub open spec fn has_level(e: IssueEntries, l: StatusLevel) -> bool {
    exists|i: int| 0 <= i < e.len() && e[i].1 == l
}

/// The most severe level among the issues (`Okay` when there are none).
pub open spec fn top_level(e: IssueEntries) -> StatusLevel {
    if has_level(e, StatusLevel::Critical) {
        StatusLevel::Critical
    } else if has_level(e, StatusLevel::Warning) {
        StatusLevel::Warning
    } else {
        StatusLevel::Okay
    }
}

/// The messages of the issues at the most severe level, in entry order.
pub open spec fn top_messages(e: IssueEntries) -> Seq<Seq<char>> {
    let t = top_level(e);
    e.filter(|x: (Seq<char>, StatusLevel, Seq<char>)| x.1 == t).map_values(
        |x: (Seq<char>, StatusLevel, Seq<char>)| x.2,
    )
}

/// A status line: level, " - ", message, newline.
pub open spec fn status_text(level: StatusLevel, message: Seq<char>) -> Seq<char> {
    level.spec_label() + " - "@ + message + "\n"@
}

pub open spec fn idle_message() -> Seq<char> {
    "Daemon is running normally"@
}

/// The status line for a set of issues: `OK - Daemon is running normally` when there
/// are none; otherwise the most severe level and the messages at that level, sorted
/// and joined with "; ".
pub open spec fn is_status_line(e: IssueEntries, line: Seq<char>) -> bool {
    if e.len() == 0 {
        line == status_text(StatusLevel::Okay, idle_message())
    } else {
        exists|msgs: Seq<Seq<char>>|
            #![trigger join(msgs, "; "@)]
            msgs.to_multiset() == top_messages(e).to_multiset() && sorted_by(msgs, lex_order())
                && line == status_text(top_level(e), join(msgs, "; "@))
    }
}

/// Tracker of the daemon's active issues and of where its status file lives.
pub struct StatusTracker {
    status_file: Option<String>,
    active_issues: Vec<Issue>,
}

impl StatusTracker {
    /// The issues, as (key, level, message), in the order they were first recorded.
    pub closed spec fn entries(&self) -> IssueEntries {
        self.active_issues@.map_values(|i: Issue| (i.key@, i.level, i.message@))
    }

    /// The configured status file path.
    pub closed spec fn file(&self) -> Option<Seq<char>> {
        match self.status_file {
            Some(p) => Some(p@),
            None => None,
        }
    }

    /// Keys are unique.
    pub open spec fn wf(&self) -> bool {
        unique_keys(self.entries())
    }

    /// Create a new `StatusTracker` with no status file configured.
    pub fn new() -> (r: Self)
        ensures
            r.wf(),
            r.entries() == IssueEntries::empty(),
            r.file() == None::<Seq<char>>,
    {
        let r = StatusTracker { status_file: None, active_issues: Vec::new() };
        assert(r.entries() =~= IssueEntries::empty());
        r
    }

    /// Set the destination path for the status file.
    pub fn set_status_file(&mut self, path: Option<String>)
        ensures
            final(self).entries() == old(self).entries(),
            final(self).file() == (match path {
                Some(p) => Some(p@),
                None => None::<Seq<char>>,
            }),
    {
        self.status_file = path;
    }

    /// Retrieve the currently configured status file path.
    pub fn status_file(&self) -> (r: Option<String>)
        ensures
            match r {
                Some(p) => self.file() == Some(p@),
                None => self.file() == None::<Seq<char>>,
            },
    {
        match &self.status_file {
            Some(p) => Some(p.clone()),
            None => None,
        }
    }

    fn find(&self, key: &str) -> (r: Option<usize>)
        requires
            self.wf(),
        ensures
            match r {
                Some(i) => i < self.entries().len() && self.entries()[i as int].0 == key@
                    && has_key(self.entries(), key@) && key_index(self.entries(), key@) == i,
                None => !has_key(self.entries(), key@),
            },
    {
        let mut i: usize = 0;
        while i < self.active_issues.len()
            invariant
                i <= self.active_issues.len(),
                unique_keys(self.entries()),
                forall|k: int| 0 <= k < i ==> self.entries()[k].0 != key@,
            decreases self.active_issues.len() - i,
        {
            if str_eq(self.active_issues[i].key.as_str(), key) {
                let ghost e = self.entries();
                assert(e[i as int].0 == key@);
                proof {
                    assert(has_key(e, key@));
                    let j = key_index(e, key@);
                    if j != i {
                        assert(e[j].0 != e[i as int].0);
                    }
                }
                return Some(i);
            }
            i = i + 1;
        }
        None
    }

    /// Record an active issue with a specific severity level (replacing any under the key).
    pub fn set_issue(&mut self, key: &str, level: StatusLevel, message: String)
        requires
            old(self).wf(),
        ensures
            final(self).wf(),
            final(self).entries() == with_issue(old(self).entries(), key@, level, message@),
            final(self).file() == old(self).file(),
    {
        let issue = Issue { key: key.to_owned(), level, message };
        let ghost e = self.entries();
        match self.find(key) {
            Some(i) => {
                self.active_issues.set(i, issue);
                assert(self.entries() =~= e.update(i as int, (key@, level, message@)));
            },
            None => {
                self.active_issues.push(issue);
                assert(self.entries() =~= e.push((key@, level, message@)));
            },
        }
    }

    /// Clear a previously recorded issue; tells whether one was removed.
    pub fn clear_issue(&mut self, key: &str) -> (changed: bool)
        requires
            old(self).wf(),
        ensures
            final(self).wf(),
            changed == has_key(old(self).entries(), key@),
            final(self).entries() == without_issue(old(self).entries(), key@),
            final(self).file() == old(self).file(),
    {
        let ghost e = self.entries();
        match self.find(key) {
            Some(i) => {
                self.active_issues.remove(i);
                assert(self.entries() =~= e.remove(i as int));
                true
            },
            None => false,
        }
    }

    /// Clear all active issues whose key starts with the prefix; tells whether any was removed.
    pub fn clear_issues_with_prefix(&mut self, prefix: &str) -> (changed: bool)
        requires
            old(self).wf(),
        ensures
            final(self).wf(),
            final(self).entries() == without_prefix(old(self).entries(), prefix@),
            changed == (without_prefix(old(self).entries(), prefix@).len() != old(
                self,
            ).entries().len()),
            final(self).file() == old(self).file(),
    {
        let ghost e = self.entries();
        let ghost pred = |x: (Seq<char>, StatusLevel, Seq<char>)| !prefix@.is_prefix_of(x.0);
        let p = chars_of(prefix);
        let mut kept: Vec<Issue> = Vec::new();
        let mut old_issues: Vec<Issue> = Vec::new();
        std::mem::swap(&mut old_issues, &mut self.active_issues);
        assert(old_issues@.map_values(|i: Issue| (i.key@, i.level, i.message@)) == e);
        let n = old_issues.len();
        let mut i: usize = 0;
        while i < n
            invariant
                n == old_issues@.len(),
                i <= n,
                e == old_issues@.map_values(|i: Issue| (i.key@, i.level, i.message@)),
                kept@.map_values(|i: Issue| (i.key@, i.level, i.message@)) == e.take(i as int).filter(pred),
                p@ == prefix@,
                pred == (|x: (Seq<char>, StatusLevel, Seq<char>)| !prefix@.is_prefix_of(x.0)),
                unique_keys(e),
                unique_keys(kept@.map_values(|i: Issue| (i.key@, i.level, i.message@))),
                forall|a: int|
                    0 <= a < kept@.len() ==> exists|j: int|
                        0 <= j < i && e[j].0 == #[trigger] kept@[a].key@,
            decreases n - i,
        {
            let ghost k = i as int;
            proof {
                assert(e.take(k + 1) =~= e.take(k).push(e[k]));
                e.take(k).lemma_filter_push(e[k], pred);
            }
            let issue = &old_issues[i];
            assert(e[k] == (issue.key@, issue.level, issue.message@));
            let kc = chars_of(issue.key.as_str());
            if !starts_with_chars(kc.as_slice(), p.as_slice()) {
                let ghost before = kept@;
                assert forall|a: int| 0 <= a < before.len() implies before[a].key@ != e[k].0 by {
                    let j = choose|j: int| 0 <= j < k && e[j].0 == #[trigger] before[a].key@;
                }
                let copy = Issue {
                    key: issue.key.clone(),
                    level: issue.level,
                    message: issue.message.clone(),
                };
                kept.push(copy);
                assert(kept@.map_values(|i: Issue| (i.key@, i.level, i.message@)) =~= before.map_values(
                    |i: Issue| (i.key@, i.level, i.message@),
                ).push(e[k]));
                assert(pred(e[k]));
                assert forall|a: int|
                    0 <= a < kept@.len() implies exists|j: int|
                        0 <= j < k + 1 && e[j].0 == #[trigger] kept@[a].key@ by {
                    if a < before.len() {
                        assert(kept@[a] == before[a]);
                        let j = choose|j: int| 0 <= j < k && e[j].0 == #[trigger] before[a].key@;
                        assert(0 <= j < k + 1 && e[j].0 == kept@[a].key@);
                    } else {
                        assert(e[k].0 == kept@[a].key@);
                    }
                }
            } else {
                assert(!pred(e[k]));
                assert(e.take(k + 1).filter(pred) == e.take(k).filter(pred));
            }
            i = i + 1;
        }
        assert(e.take(n as int) =~= e);
        let changed = kept.len() != n;
        self.active_issues = kept;
        changed
    }

    /// The aggregated status line that the status file holds.
    pub fn status_line(&self) -> (r: String)
        ensures
            is_status_line(self.entries(), r@),
    {
        let ghost e = self.entries();
        let n = self.active_issues.len();
        if n == 0 {
            let s0 = concat(StatusLevel::Okay.label(), " - ");
            let s = concat(s0.as_str(), "Daemon is running normally");
            let t = concat(s.as_str(), "\n");
            return t;
        }
        let mut has_crit = false;
        let mut has_warn = false;
        let mut i: usize = 0;
        while i < n
            invariant
                n == self.active_issues.len(),
                e == self.entries(),
                i <= n,
                has_crit == (exists|k: int| 0 <= k < i && e[k].1 == StatusLevel::Critical),
                has_warn == (exists|k: int| 0 <= k < i && e[k].1 == StatusLevel::Warning),
            decreases n - i,
        {
            assert(e[i as int].1 == self.active_issues[i as int].level);
            if self.active_issues[i].level == StatusLevel::Critical {
                has_crit = true;
            } else if self.active_issues[i].level == StatusLevel::Warning {
                has_warn = true;
            }
            i = i + 1;
        }
        let top = if has_crit {
            StatusLevel::Critical
        } else if has_warn {
            StatusLevel::Warning
        } else {
            StatusLevel::Okay
        };
        assert(top == top_level(e));
        let ghost pred = |x: (Seq<char>, StatusLevel, Seq<char>)| x.1 == top;
        let ghost msg = |x: (Seq<char>, StatusLevel, Seq<char>)| x.2;
        let mut msgs: Vec<String> = Vec::new();
        let mut j: usize = 0;
        while j < n
            invariant
                n == self.active_issues.len(),
                e == self.entries(),
                j <= n,
                pred == (|x: (Seq<char>, StatusLevel, Seq<char>)| x.1 == top),
                msg == (|x: (Seq<char>, StatusLevel, Seq<char>)| x.2),
                msgs@.map_values(|s: String| s@) == e.take(j as int).filter(pred).map_values(msg),
            decreases n - j,
        {
            proof {
                assert(e.take(j + 1) =~= e.take(j as int).push(e[j as int]));
                e.take(j as int).lemma_filter_push(e[j as int], pred);
            }
            assert(e[j as int] == (
                self.active_issues[j as int].key@,
                self.active_issues[j as int].level,
                self.active_issues[j as int].message@,
            ));
            if self.active_issues[j].level == top {
                let m = self.active_issues[j].message.clone();
                let ghost before = msgs@;
                msgs.push(m);
                assert(msgs@ == before.push(m));
                assert(pred(e[j as int]));
                assert(e.take(j + 1).filter(pred) == e.take(j as int).filter(pred).push(e[j as int]));
                assert(msgs@.map_values(|s: String| s@) =~= before.map_values(|s: String| s@).push(m@));
                assert(m@ == msg(e[j as int]));
                assert(e.take(j as int).filter(pred).push(e[j as int]).map_values(msg) =~= e.take(j as int).filter(pred).map_values(msg).push(msg(e[j as int])));
                assert(msgs@.map_values(|s: String| s@) =~= e.take(j + 1).filter(pred).map_values(
                    msg,
                ));
            } else {
                assert(msgs@.map_values(|s: String| s@) =~= e.take(j + 1).filter(pred).map_values(
                    msg,
                ));
            }
            j = j + 1;
        }
        assert(e.take(n as int) =~= e);
        assert(e.filter(pred).map_values(msg) =~= top_messages(e));
        let sorted = sort_strings(msgs);
        let body = join_strings(&sorted, "; ");
        let s1 = concat(top.label(), " - ");
        let s2 = concat(s1.as_str(), body.as_str());
        let r = concat(s2.as_str(), "\n");
        assert(r@ == status_text(top_level(e), join(sorted@.map_values(|s: String| s@), "; "@)));
        r
    }
}

} // verus!

verus! {

proof fn lemma_lookup_at(e: IssueEntries, k: Seq<char>, i: int)
    requires
        unique_keys(e),
        0 <= i < e.len(),
        e[i].0 == k,
    ensures
        has_key(e, k),
        key_index(e, k) == i,
        lookup(e, k) == Some((e[i].1, e[i].2)),
{
    assert(has_key(e, k));
    let j = key_index(e, k);
    if j != i {
        assert(e[j].0 != e[i].0);
    }
}

/// Recording an issue: afterwards the key holds exactly that level and message,
/// every other key holds what it held, and keys stay distinct.
pub proof fn lemma_set_issue_lookup(e: IssueEntries, k: Seq<char>, l: StatusLevel, m: Seq<char>, other: Seq<char>)
    requires
        unique_keys(e),
    ensures
        unique_keys(with_issue(e, k, l, m)),
        lookup(with_issue(e, k, l, m), k) == Some((l, m)),
        other != k ==> lookup(with_issue(e, k, l, m), other) == lookup(e, other),
{
    let w = with_issue(e, k, l, m);
    let idx = if has_key(e, k) {
        key_index(e, k)
    } else {
        e.len() as int
    };
    assert(w[idx] == (k, l, m));
    assert forall|i: int| 0 <= i < w.len() && i != idx implies w[i] == e[i] by {}
    assert(unique_keys(w)) by {
        assert forall|i: int, j: int| 0 <= i < w.len() && 0 <= j < w.len() && i != j implies w[i].0 != w[j].0 by {
            if i == idx {
                if has_key(e, k) {
                    assert(e[idx].0 == k);
                    assert(e[j].0 != e[idx].0);
                } else {
                    assert(w[j].0 == e[j].0);
                    assert(!(e[j].0 == k));
                }
            } else if j == idx {
                if has_key(e, k) {
                    assert(e[idx].0 == k);
                    assert(e[i].0 != e[idx].0);
                } else {
                    assert(w[i].0 == e[i].0);
                    assert(!(e[i].0 == k));
                }
            } else {
                assert(w[i] == e[i] && w[j] == e[j]);
            }
        }
    };
    lemma_lookup_at(w, k, idx);
    if other != k {
        if has_key(e, other) {
            let oi = key_index(e, other);
            assert(w[oi] == e[oi]);
            lemma_lookup_at(w, other, oi);
        } else {
            assert forall|i: int| 0 <= i < w.len() implies w[i].0 != other by {
                if i != idx {
                    assert(w[i] == e[i]);
                }
            }
        }
    }
}

/// Clearing an issue: afterwards the key holds nothing, every other key holds
/// what it held, and keys stay distinct.
pub proof fn lemma_clear_issue_lookup(e: IssueEntries, k: Seq<char>, other: Seq<char>)
    requires
        unique_keys(e),
    ensures
        unique_keys(without_issue(e, k)),
        lookup(without_issue(e, k), k) is None,
        other != k ==> lookup(without_issue(e, k), other) == lookup(e, other),
{
    let w = without_issue(e, k);
    if has_key(e, k) {
        let idx = key_index(e, k);
        assert forall|i: int| 0 <= i < w.len() implies w[i] == (if i < idx {
            e[i]
        } else {
            e[i + 1]
        }) by {}
        assert(unique_keys(w)) by {
            assert forall|i: int, j: int| 0 <= i < w.len() && 0 <= j < w.len() && i != j implies w[i].0 != w[j].0 by {
                let a = if i < idx {
                    i
                } else {
                    i + 1
                };
                let b = if j < idx {
                    j
                } else {
                    j + 1
                };
                assert(w[i] == e[a] && w[j] == e[b]);
            }
        };
        assert forall|i: int| 0 <= i < w.len() implies w[i].0 != k by {
            let a = if i < idx {
                i
            } else {
                i + 1
            };
            assert(w[i] == e[a]);
            assert(e[a].0 != e[idx].0);
        }
        if other != k {
            if has_key(e, other) {
                let oi = key_index(e, other);
                assert(oi != idx);
                let wi = if oi < idx {
                    oi
                } else {
                    oi - 1
                };
                assert(w[wi] == e[oi]);
                lemma_lookup_at(w, other, wi);
            } else {
                assert forall|i: int| 0 <= i < w.len() implies w[i].0 != other by {
                    let a = if i < idx {
                        i
                    } else {
                        i + 1
                    };
                    assert(w[i] == e[a]);
                }
            }
        }
    }
}

/// The status line is the idle OK line when no issue is recorded, and otherwise
/// starts with the level of the most severe issue.
pub proof fn lemma_status_line_level(e: IssueEntries, line: Seq<char>)
    requires
        is_status_line(e, line),
    ensures
        e.len() == 0 ==> line == "OK - Daemon is running normally\n"@,
        e.len() > 0 ==> top_level(e).spec_label().is_prefix_of(line),
{
    if e.len() == 0 {
        reveal_strlit("OK");
        reveal_strlit(" - ");
        reveal_strlit("Daemon is running normally");
        reveal_strlit("\n");
        reveal_strlit("OK - Daemon is running normally\n");
        assert(status_text(StatusLevel::Okay, idle_message()) =~= "OK - Daemon is running normally\n"@);
    } else {
        let msgs = choose|msgs: Seq<Seq<char>>|
            #![trigger join(msgs, "; "@)]
            msgs.to_multiset() == top_messages(e).to_multiset() && sorted_by(msgs, lex_order())
                && line == status_text(top_level(e), join(msgs, "; "@));
        let lab = top_level(e).spec_label();
        assert(line == lab + (" - "@ + join(msgs, "; "@) + "\n"@)) by {
            assert(status_text(top_level(e), join(msgs, "; "@)) =~= lab + (" - "@ + join(msgs, "; "@) + "\n"@));
        };
        assert(lab.is_prefix_of(line)) by {
            assert(line.subrange(0, lab.len() as int) =~= lab);
        };
    }
}

/// Recording an issue under a key that holds none and then clearing that key
/// leaves the issues exactly as they were.
pub proof fn lemma_clear_undoes_set(e: IssueEntries, k: Seq<char>, l: StatusLevel, m: Seq<char>)
    requires
        unique_keys(e),
        !has_key(e, k),
    ensures
        without_issue(with_issue(e, k, l, m), k) == e,
{
    let w = with_issue(e, k, l, m);
    assert(w == e.push((k, l, m)));
    lemma_set_issue_lookup(e, k, l, m, k);
    lemma_lookup_at(w, k, e.len() as int);
    assert(w.remove(e.len() as int) =~= e);
}

} // verus!
