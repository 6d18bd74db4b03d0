//! Reading Jest's output as it streams: the bridge's event lines are kept
//! aside by the test file they name, every other line is captured (and
//! echoed when asked), and the kept events are later joined to the console
//! of their files in the run model.
use crate::jest_ownership::{backslashes_to_slashes, backslashes_to_slashes_str};
use crate::live_progress::{json_string_fields, json_string_fields_of, opt_views, or_empty_seq, strs_view};
use crate::test_model::{
    console_views, copy_console_entries, copy_console_entry_of, suite_views, TestConsoleEntry, TestConsoleEntryView,
    TestRunModel, TestSuiteResult, TestSuiteView,
};
use crate::text::{owned, starts_with, starts_with_str, str_eq, strip_prefix, strip_prefix_str, trim, trim_str};
use vstd::prelude::*;

verus! {

/// The stream a line of output came on.
pub enum OutputStream {
    Stdout,
    Stderr,
}

/// What the caller is asked to print.
pub enum StreamAction {
    PrintStdout(String),
    PrintStderr(String),
}

/// The prefix of a bridge event line.
pub const BRIDGE_LINE_PREFIX: &'static str = "[JEST-BRIDGE-EVENT] ";

/// The test file a bridge event line names (`testPath` of its JSON, slashes
/// forward); `None` for another line, or when the path is missing or blank.
pub open spec fn event_test_path(line: Seq<char>) -> Option<Seq<char>> {
    match strip_prefix(line, BRIDGE_LINE_PREFIX@) {
        Some(payload) => {
            let raw = match json_string_fields_of(payload, seq!["/testPath"@]) {
                Some(v) => or_empty_seq(v[0]),
                None => Seq::empty(),
            };
            let path = backslashes_to_slashes(raw);
            if trim(path).len() == 0 {
                None
            } else {
                Some(path)
            }
        },
        None => None,
    }
}

/// The console entry kept for a bridge event line: the line as its message.
pub open spec fn event_entry(line: Seq<char>) -> TestConsoleEntryView {
    TestConsoleEntryView { message: Some(line), entry_type: None, origin: None }
}

/// The entries kept for a test file (the first list under its key).
pub open spec fn extra_for(v: Seq<(String, Vec<TestConsoleEntry>)>, key: Seq<char>) -> Seq<TestConsoleEntryView>
    decreases v.len(),
{
    if v.len() == 0 {
        Seq::empty()
    } else if v[0].0@ == key {
        console_views(v[0].1@)
    } else {
        extra_for(v.drop_first(), key)
    }
}

proof fn lemma_extra_for_update(
    s: Seq<(String, Vec<TestConsoleEntry>)>,
    i: int,
    p: (String, Vec<TestConsoleEntry>),
    k: Seq<char>,
)
    requires
        0 <= i < s.len(),
        forall|j: int| 0 <= j < i ==> #[trigger] s[j].0@ != s[i].0@,
        p.0@ == s[i].0@,
    ensures
        extra_for(s.update(i, p), k) == if k == s[i].0@ {
            console_views(p.1@)
        } else {
            extra_for(s, k)
        },
    decreases i,
{
    let u = s.update(i, p);
    if i > 0 {
        assert(u.drop_first() =~= s.drop_first().update(i - 1, p));
        assert(s.drop_first()[i - 1] == s[i]);
        assert forall|j: int| 0 <= j < i - 1 implies #[trigger] s.drop_first()[j].0@ != s.drop_first()[i - 1].0@ by {
            assert(s.drop_first()[j] == s[j + 1]);
        }
        lemma_extra_for_update(s.drop_first(), i - 1, p, k);
        assert(s[0].0@ != s[i].0@);
        assert(u[0] == s[0]);
    } else {
        assert(u.drop_first() =~= s.drop_first());
        assert(u[0] == p);
    }
}

proof fn lemma_extra_for_push(s: Seq<(String, Vec<TestConsoleEntry>)>, p: (String, Vec<TestConsoleEntry>), k: Seq<char>)
    requires
        forall|j: int| 0 <= j < s.len() ==> #[trigger] s[j].0@ != p.0@,
    ensures
        extra_for(s.push(p), k) == if k == p.0@ {
            console_views(p.1@)
        } else {
            extra_for(s, k)
        },
        k == p.0@ ==> extra_for(s, k).len() == 0,
    decreases s.len(),
{
    let u = s.push(p);
    if s.len() > 0 {
        assert(u.drop_first() =~= s.drop_first().push(p));
        assert forall|j: int| 0 <= j < s.drop_first().len() implies #[trigger] s.drop_first()[j].0@ != p.0@ by {
            assert(s.drop_first()[j] == s[j + 1]);
        }
        lemma_extra_for_push(s.drop_first(), p, k);
        assert(u[0] == s[0]);
        assert(s[0].0@ != p.0@);
    } else {
        assert(u.drop_first() =~= Seq::<(String, Vec<TestConsoleEntry>)>::empty());
        assert(extra_for(Seq::<(String, Vec<TestConsoleEntry>)>::empty(), k).len() == 0);
        assert(extra_for(s, k).len() == 0);
        assert(u[0] == p);
    }
}

/// Adds `entry` to the list kept for `key`, starting one when there is none.
fn add_extra_entry(extra: &mut Vec<(String, Vec<TestConsoleEntry>)>, key: String, entry: TestConsoleEntry)
    ensures
        forall|k: Seq<char>|
            #[trigger] extra_for(final(extra)@, k) == if k == key@ {
                extra_for(old(extra)@, k).push(entry@)
            } else {
                extra_for(old(extra)@, k)
            },
{
    let ghost start = extra@;
    let mut i: usize = 0;
    while i < extra.len()
        invariant
            i <= extra.len(),
            extra@ == start,
            start == old(extra)@,
            forall|j: int| 0 <= j < i ==> #[trigger] start[j].0@ != key@,
        decreases extra.len() - i,
    {
        if str_eq(extra[i].0.as_str(), key.as_str()) {
            let (k0, mut es) = extra.remove(i);
            let ghost before_es = es@;
            es.push(entry);
            let ghost p = (k0, es);
            extra.insert(i, (k0, es));
            assert(extra@ =~= start.update(i as int, p));
            assert forall|k: Seq<char>|
                #[trigger] extra_for(extra@, k) == if k == key@ {
                    extra_for(start, k).push(entry@)
                } else {
                    extra_for(start, k)
                } by {
                assert(start[i as int].0@ == key@);
                assert(start[i as int].1@ == before_es);
                lemma_extra_for_update(start, i as int, p, k);
                lemma_extra_for_update(start, i as int, start[i as int], k);
                assert(start.update(i as int, start[i as int]) =~= start);
                assert(console_views(p.1@) =~= console_views(before_es).push(entry@));
                if k == key@ {
                    assert(extra_for(start, k) == console_views(before_es));
                }
            }
            return;
        }
        i = i + 1;
    }
    let ghost ev = entry@;
    let mut es: Vec<TestConsoleEntry> = Vec::new();
    es.push(entry);
    let ghost p = (key, es);
    extra.push((key, es));
    assert(extra@ =~= start.push(p));
    assert forall|k: Seq<char>|
        #[trigger] extra_for(extra@, k) == if k == key@ {
            extra_for(start, k).push(ev)
        } else {
            extra_for(start, k)
        } by {
        lemma_extra_for_push(start, p, k);
        assert(console_views(p.1@) =~= Seq::<TestConsoleEntryView>::empty().push(ev));
    }
}

/// The state of reading one Jest run's output.
pub struct JestStreamingAdapter {
    pub emit_raw_lines: bool,
    pub captured_stdout: Vec<String>,
    pub captured_stderr: Vec<String>,
    pub extra_bridge_entries_by_test_path: Vec<(String, Vec<TestConsoleEntry>)>,
}

impl JestStreamingAdapter {
    pub fn new(emit_raw_lines: bool) -> (res: Self)
        ensures
            res.emit_raw_lines == emit_raw_lines,
            res.captured_stdout@.len() == 0,
            res.captured_stderr@.len() == 0,
            res.extra_bridge_entries_by_test_path@.len() == 0,
    {
        JestStreamingAdapter {
            emit_raw_lines,
            captured_stdout: Vec::new(),
            captured_stderr: Vec::new(),
            extra_bridge_entries_by_test_path: Vec::new(),
        }
    }

    /// The label of the run.
    pub fn on_start(&self) -> (res: Option<String>)
        ensures
            res matches Some(l) && l@ == "jest"@,
    {
        Some(owned("jest"))
    }

    /// Reads one line: a bridge event line is kept aside by the test file
    /// it names (and dropped when it names none); any other line is
    /// captured on its stream and, when raw lines are echoed, printed.
    pub fn on_line(&mut self, stream: OutputStream, line: &str) -> (res: Vec<StreamAction>)
        ensures
            final(self).emit_raw_lines == old(self).emit_raw_lines,
            starts_with(line@, BRIDGE_LINE_PREFIX@) ==> {
                &&& res@.len() == 0
                &&& final(self).captured_stdout@ == old(self).captured_stdout@
                &&& final(self).captured_stderr@ == old(self).captured_stderr@
                &&& forall|k: Seq<char>|
                    #[trigger] extra_for(final(self).extra_bridge_entries_by_test_path@, k) == if event_test_path(line@)
                        == Some(k) {
                        extra_for(old(self).extra_bridge_entries_by_test_path@, k).push(event_entry(line@))
                    } else {
                        extra_for(old(self).extra_bridge_entries_by_test_path@, k)
                    }
            },
            !starts_with(line@, BRIDGE_LINE_PREFIX@) ==> {
                &&& final(self).extra_bridge_entries_by_test_path@ == old(self).extra_bridge_entries_by_test_path@
                &&& match stream {
                    OutputStream::Stdout => {
                        &&& crate::text::views(final(self).captured_stdout@) == crate::text::views(
                            old(self).captured_stdout@,
                        ).push(line@)
                        &&& final(self).captured_stderr@ == old(self).captured_stderr@
                        &&& if old(self).emit_raw_lines {
                            res@.len() == 1 && (res@[0] matches StreamAction::PrintStdout(t) && t@ == line@)
                        } else {
                            res@.len() == 0
                        }
                    },
                    OutputStream::Stderr => {
                        &&& crate::text::views(final(self).captured_stderr@) == crate::text::views(
                            old(self).captured_stderr@,
                        ).push(line@)
                        &&& final(self).captured_stdout@ == old(self).captured_stdout@
                        &&& if old(self).emit_raw_lines {
                            res@.len() == 1 && (res@[0] matches StreamAction::PrintStderr(t) && t@ == line@)
                        } else {
                            res@.len() == 0
                        }
                    },
                }
            },
    {
        if starts_with_str(line, BRIDGE_LINE_PREFIX) {
            self.push_bridge_event_line(line);
            return Vec::new();
        }
        let mut out: Vec<StreamAction> = Vec::new();
        match stream {
            OutputStream::Stdout => {
                let ghost before = crate::text::views(self.captured_stdout@);
                self.captured_stdout.push(owned(line));
                assert(crate::text::views(self.captured_stdout@) =~= before.push(line@));
                if self.emit_raw_lines {
                    out.push(StreamAction::PrintStdout(owned(line)));
                }
            },
            OutputStream::Stderr => {
                let ghost before = crate::text::views(self.captured_stderr@);
                self.captured_stderr.push(owned(line));
                assert(crate::text::views(self.captured_stderr@) =~= before.push(line@));
                if self.emit_raw_lines {
                    out.push(StreamAction::PrintStderr(owned(line)));
                }
            },
        }
        out
    }

    fn push_bridge_event_line(&mut self, line: &str)
        requires
            starts_with(line@, BRIDGE_LINE_PREFIX@),
        ensures
            final(self).emit_raw_lines == old(self).emit_raw_lines,
            final(self).captured_stdout@ == old(self).captured_stdout@,
            final(self).captured_stderr@ == old(self).captured_stderr@,
            forall|k: Seq<char>|
                #[trigger] extra_for(final(self).extra_bridge_entries_by_test_path@, k) == if event_test_path(line@)
                    == Some(k) {
                    extra_for(old(self).extra_bridge_entries_by_test_path@, k).push(event_entry(line@))
                } else {
                    extra_for(old(self).extra_bridge_entries_by_test_path@, k)
                },
    {
        let payload = match strip_prefix_str(line, BRIDGE_LINE_PREFIX) {
            Some(p) => p,
            None => {
                return;
            },
        };
        let pointers = ["/testPath"];
        proof {
            assert(strs_view(pointers@) =~= seq!["/testPath"@]);
        }
        let raw = match json_string_fields(payload.as_str(), &pointers) {
            Some(v) => match &v[0] {
                Some(t) => owned(t.as_str()),
                None => String::new(),
            },
            None => String::new(),
        };
        let path = backslashes_to_slashes_str(raw.as_str());
        if trim_str(path.as_str()).as_str().is_empty() {
            return;
        }
        let entry = TestConsoleEntry { message: Some(owned(line)), entry_type: None, origin: None };
        add_extra_entry(&mut self.extra_bridge_entries_by_test_path, path, entry);
    }
}

/// A suite with the entries kept for its file added to its console (none
/// added when there are none).
pub open spec fn merged_console_suite(f: TestSuiteView, extra: Seq<(String, Vec<TestConsoleEntry>)>) -> TestSuiteView {
    let add = extra_for(extra, backslashes_to_slashes(f.test_file_path));
    if add.len() == 0 {
        f
    } else {
        TestSuiteView {
            console: Some(
                match f.console {
                    Some(c) => c + add,
                    None => add,
                },
            ),
            ..f
        }
    }
}

/// The entries kept for `key`, copied.
fn extra_entries_for(extra: &Vec<(String, Vec<TestConsoleEntry>)>, key: &str) -> (res: Vec<TestConsoleEntry>)
    ensures
        console_views(res@) == extra_for(extra@, key@),
{
    let mut i: usize = 0;
    assert(extra@.skip(0) =~= extra@);
    while i < extra.len()
        invariant
            i <= extra.len(),
            extra_for(extra@, key@) == extra_for(extra@.skip(i as int), key@),
        decreases extra.len() - i,
    {
        assert(extra@.skip(i as int)[0] == extra@[i as int]);
        if str_eq(extra[i].0.as_str(), key) {
            return copy_console_entries(&extra[i].1);
        }
        assert(extra@.skip(i as int).drop_first() =~= extra@.skip(i + 1));
        i = i + 1;
    }
    Vec::new()
}

/// Joins the bridge events kept aside to the console of the files they
/// name; the rest of the model stays as it is.
pub fn merge_console_entries_into_bridge_json(
    bridge: &mut TestRunModel,
    extra_console_by_test_path: &Vec<(String, Vec<TestConsoleEntry>)>,
)
    ensures
        final(bridge).start_time == old(bridge).start_time,
        final(bridge).aggregated == old(bridge).aggregated,
        suite_views(final(bridge).test_results@) == suite_views(old(bridge).test_results@).map_values(
            |f: TestSuiteView| merged_console_suite(f, extra_console_by_test_path@),
        ),
{
    let ghost olds = suite_views(bridge.test_results@);
    let mut files: Vec<TestSuiteResult> = Vec::new();
    std::mem::swap(&mut files, &mut bridge.test_results);
    let ghost all = suite_views(files@);
    let ghost target = all.map_values(|f: TestSuiteView| merged_console_suite(f, extra_console_by_test_path@));
    let n = files.len();
    let mut out: Vec<TestSuiteResult> = Vec::new();
    let mut i: usize = 0;
    while i < n
        invariant
            i <= n,
            n == all.len(),
            files.len() == n - i,
            suite_views(files@) == all.skip(i as int),
            target == all.map_values(|f: TestSuiteView| merged_console_suite(f, extra_console_by_test_path@)),
            suite_views(out@) == target.take(i as int),
        decreases n - i,
    {
        let ghost before_files = files@;
        let mut f = files.remove(0);
        assert(suite_views(files@) =~= suite_views(before_files).drop_first());
        assert(all.skip(i as int).drop_first() =~= all.skip(i + 1));
        assert(suite_views(before_files)[0] == before_files[0]@);
        assert(all.skip(i as int)[0] == all[i as int]);
        assert(f@ == all[i as int]);
        let key = backslashes_to_slashes_str(f.test_file_path.as_str());
        let add = extra_entries_for(extra_console_by_test_path, key.as_str());
        if add.len() > 0 {
            let merged = match f.console {
                Some(existing) => {
                    let mut c = existing;
                    let ghost c0 = console_views(c@);
                    let mut k: usize = 0;
                    while k < add.len()
                        invariant
                            k <= add.len(),
                            console_views(c@) == c0 + console_views(add@).take(k as int),
                        decreases add.len() - k,
                    {
                        let ghost cb = console_views(c@);
                        c.push(copy_console_entry_of(&add[k as usize]));
                        assert(console_views(c@) =~= cb.push(add@[k as int]@));
                        assert(console_views(add@).take(k + 1) =~= console_views(add@).take(k as int).push(
                            add@[k as int]@,
                        ));
                        k = k + 1;
                    }
                    assert(console_views(add@).take(add.len() as int) =~= console_views(add@));
                    c
                },
                None => add,
            };
            f.console = Some(merged);
        }
        let ghost before = suite_views(out@);
        let ghost fv = f@;
        out.push(f);
        assert(fv == target[i as int]);
        assert(suite_views(out@) =~= before.push(fv));
        assert(target.take(i + 1) =~= target.take(i as int).push(target[i as int]));
        i = i + 1;
    }
    assert(target.take(n as int) =~= target);
    bridge.test_results = out;
}

} // verus!
