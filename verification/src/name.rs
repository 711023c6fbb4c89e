//! Qualified names of types: a project name, a chain of module segments and
//! a final name, written in text as segments joined by `.`.
//!
//! Project and module segments are referent names: non-empty segments whose
//! first character is an ASCII capital letter. The final name is free-form.
//! Parsing reads `project.module....name`; rendering joins the parts with
//! `,`, matching the engine's textual form of a qualified type name.

use vstd::prelude::*;
use vstd::std_specs::iter::IteratorSpec;
use vstd::string::StringExecFns;

verus! {

broadcast use vstd::string::axiom_spec_iter, vstd::string::next_postcondition;

/// A segment is valid as a referent name when it is non-empty and its first
/// character is an ASCII capital letter.
pub open spec fn valid_referent(s: Seq<char>) -> bool {
    s.len() > 0 && 65 <= s[0] as u32 <= 90
}

/// The segments of `s` split on `.`: splitting the empty text gives one
/// empty segment, and every `.` opens a new segment.
pub open spec fn dot_split(s: Seq<char>) -> Seq<Seq<char>>
    decreases s.len(),
{
    if s.len() == 0 {
        seq![Seq::empty()]
    } else if s.last() == '.' {
        dot_split(s.drop_last()).push(Seq::empty())
    } else {
        let rest = dot_split(s.drop_last());
        rest.update(rest.len() - 1, rest.last().push(s.last()))
    }
}

/// The parts joined with `,` between every two of them.
pub open spec fn comma_joined(parts: Seq<Seq<char>>) -> Seq<char>
    decreases parts.len(),
{
    if parts.len() == 0 {
        Seq::empty()
    } else if parts.len() == 1 {
        parts[0]
    } else {
        comma_joined(parts.drop_last()) + seq![','] + parts.last()
    }
}

/// Ways a textual qualified name can be rejected.
#[derive(Clone, Copy, Debug, PartialEq, Eq, Structural)]
pub enum InvalidQualifiedName {
    /// The qualified name has no segments at all.
    EmptyName,
    /// There is no module segment between the project name and the final
    /// name.
    NoModuleName,
    /// A project or module segment is not a valid referent name.
    InvalidSegment,
}

impl InvalidQualifiedName {
    /// Human-readable description of the error.
    pub fn message(&self) -> (r: String)
        ensures
            *self == InvalidQualifiedName::EmptyName ==> r@ == "The qualified name is empty."@,
            *self == InvalidQualifiedName::NoModuleName ==> r@
                == "No module in type qualified name."@,
            *self == InvalidQualifiedName::InvalidSegment ==> r@
                == "Invalid name segment in qualified name."@,
    {
        match self {
            InvalidQualifiedName::EmptyName => "The qualified name is empty.".to_owned(),
            InvalidQualifiedName::NoModuleName => "No module in type qualified name.".to_owned(),
            InvalidQualifiedName::InvalidSegment => "Invalid name segment in qualified name.".to_owned(),
        }
    }
}

/// A validated referent-name segment.
#[derive(Clone, Debug)]
pub struct ReferentName {
    text: String,
}

impl View for ReferentName {
    type V = Seq<char>;

    closed spec fn view(&self) -> Seq<char> {
        self.text@
    }
}

/// Relies on String::push: appends the given character at the end of the
/// string and changes nothing else.
#[verifier::external_body]
fn push_char(s: &mut String, c: char)
    ensures
        final(s)@ == old(s)@.push(c),
{
    s.push(c)
}

impl ReferentName {
    /// Validate a segment as a referent name.
    pub fn new(text: &str) -> (r: Result<ReferentName, InvalidQualifiedName>)
        ensures
            match r {
                Ok(n) => valid_referent(text@) && n@ == text@,
                Err(e) => e == InvalidQualifiedName::InvalidSegment && !valid_referent(text@),
            },
    {
        let mut it = text.chars();
        proof {
            assert(it.remaining() == text@);
        }
        match it.next() {
            Option::None => Err(InvalidQualifiedName::InvalidSegment),
            Option::Some(c) => {
                let u = c as u32;
                if 65 <= u && u <= 90 {
                    Ok(ReferentName { text: text.to_owned() })
                } else {
                    Err(InvalidQualifiedName::InvalidSegment)
                }
            },
        }
    }

    /// The segment's text.
    pub fn as_str(&self) -> (r: &str)
        ensures
            r@ == self@,
    {
        self.text.as_str()
    }

    /// Unwrap the segment into its text.
    pub fn into_string(self) -> (r: String)
        ensures
            r@ == self@,
    {
        self.text
    }
}

/// A qualified module name: the project name followed by at least one
/// module segment, all referent names.
pub struct ModuleQualifiedName {
    project_name: ReferentName,
    segments: Vec<ReferentName>,
}

/// Mathematical model of a [`ModuleQualifiedName`].
pub struct ModuleQualifiedNameView {
    /// The project name segment.
    pub project: Seq<char>,
    /// The module segments, outermost first.
    pub segments: Seq<Seq<char>>,
}

impl View for ModuleQualifiedName {
    type V = ModuleQualifiedNameView;

    closed spec fn view(&self) -> ModuleQualifiedNameView {
        ModuleQualifiedNameView {
            project: self.project_name@,
            segments: Seq::new(self.segments@.len(), |k: int| self.segments@[k]@),
        }
    }
}

impl ModuleQualifiedName {
    /// Every segment is a valid referent name and there is at least one.
    pub open spec fn wf(self) -> bool {
        &&& valid_referent(self@.project)
        &&& self@.segments.len() >= 1
        &&& forall|k: int|
            0 <= k < self@.segments.len() ==> valid_referent(#[trigger] self@.segments[k])
    }

    /// Assemble a module name; a module with no segments has an empty name
    /// and is rejected.
    pub fn new(project_name: ReferentName, segments: Vec<ReferentName>) -> (r: Result<
        ModuleQualifiedName,
        InvalidQualifiedName,
    >)
        requires
            valid_referent(project_name@),
            forall|k: int| 0 <= k < segments@.len() ==> valid_referent(#[trigger] segments@[k]@),
        ensures
            match r {
                Ok(m) => segments@.len() >= 1 && m.wf() && m@.project == project_name@
                    && m@.segments.len() == segments@.len() && (forall|k: int|
                    0 <= k < segments@.len() ==> m@.segments[k] == #[trigger] segments@[k]@),
                Err(e) => e == InvalidQualifiedName::EmptyName && segments@.len() == 0,
            },
    {
        if segments.len() == 0 {
            return Err(InvalidQualifiedName::EmptyName);
        }
        Ok(ModuleQualifiedName { project_name, segments })
    }
}

/// The views of a vector of strings.
spec fn string_views(parts: Seq<String>) -> Seq<Seq<char>> {
    parts.map_values(|p: String| p@)
}

/// Split a text into its `.`-separated segments.
fn split_dots(s: &str) -> (parts: Vec<String>)
    ensures
        parts@.len() >= 1,
        string_views(parts@) == dot_split(s@),
{
    let ghost all = s@;
    let mut it = s.chars();
    let mut parts: Vec<String> = Vec::new();
    let mut cur: String = String::new();
    let ghost mut i: int = 0;
    proof {
        assert(it.remaining() == all);
        assert(all.take(0) =~= Seq::<char>::empty());
        assert(string_views(parts@).push(cur@) =~= dot_split(all.take(i)));
    }
    loop
        invariant
            0 <= i <= all.len(),
            it.remaining() == all.skip(i),
            string_views(parts@).push(cur@) == dot_split(all.take(i)),
        ensures
            string_views(parts@).push(cur@) == dot_split(all),
        decreases all.len() - i,
    {
        let next = it.next();
        match next {
            Option::Some(c) => {
                proof {
                    assert(all.skip(i).len() > 0);
                    assert(all.skip(i)[0] == all[i]);
                    assert(c == all[i]);
                    assert(it.remaining() =~= all.skip(i + 1));
                }
                let ghost old_parts = string_views(parts@);
                let ghost old_cur = cur@;
                if c == '.' {
                    parts.push(cur);
                    cur = String::new();
                } else {
                    push_char(&mut cur, c);
                }
                proof {
                    i = i + 1;
                    let pref = all.take(i);
                    assert(pref.len() == i);
                    assert(pref.drop_last() =~= all.take(i - 1));
                    assert(pref.last() == all[i - 1]);
                    let rest = dot_split(all.take(i - 1));
                    assert(rest == old_parts.push(old_cur));
                    if c == '.' {
                        assert(string_views(parts@) =~= old_parts.push(old_cur));
                        assert(string_views(parts@).push(cur@) =~= rest.push(Seq::empty()));
                    } else {
                        assert(string_views(parts@) =~= old_parts);
                        assert(rest.update(rest.len() - 1, rest.last().push(c)) =~= old_parts.push(
                            old_cur.push(c),
                        ));
                        assert(string_views(parts@).push(cur@) =~= old_parts.push(
                            old_cur.push(c),
                        ));
                    }
                }
            },
            Option::None => {
                proof {
                    assert(all.skip(i).len() == 0);
                    assert(i == all.len());
                    assert(all.take(i) =~= all);
                    assert(string_views(parts@).push(cur@) == dot_split(all));
                }
                break;
            },
        }
    }
    parts.push(cur);
    proof {
        assert(string_views(parts@) =~= dot_split(all));
    }
    parts
}

/// A qualified type name: project name, module segments, final name.
#[derive(Clone, Debug)]
pub struct QualifiedName {
    project_name: ReferentName,
    module_segments: Vec<ReferentName>,
    name: String,
}

/// Mathematical model of a [`QualifiedName`].
pub struct QualifiedNameView {
    /// The project name segment.
    pub project: Seq<char>,
    /// The module segments between the project name and the final name.
    pub modules: Seq<Seq<char>>,
    /// The final name segment; free-form.
    pub name: Seq<char>,
}

impl View for QualifiedName {
    type V = QualifiedNameView;

    closed spec fn view(&self) -> QualifiedNameView {
        QualifiedNameView {
            project: self.project_name@,
            modules: Seq::new(self.module_segments@.len(), |k: int| self.module_segments@[k]@),
            name: self.name@,
        }
    }
}

impl QualifiedName {
    /// The project name and every module segment are valid referent names.
    pub open spec fn wf(self) -> bool {
        &&& valid_referent(self@.project)
        &&& forall|k: int|
            0 <= k < self@.modules.len() ==> valid_referent(#[trigger] self@.modules[k])
    }

    /// The project name segment.
    pub fn project(&self) -> (r: &ReferentName)
        ensures
            r@ == self@.project,
    {
        &self.project_name
    }

    /// The module segments between the project name and the final name.
    pub fn module_segments(&self) -> (r: &Vec<ReferentName>)
        ensures
            r@.len() == self@.modules.len(),
            forall|k: int| 0 <= k < r@.len() ==> (#[trigger] r@[k])@ == self@.modules[k],
    {
        &self.module_segments
    }

    /// The final name segment.
    pub fn name(&self) -> (r: &String)
        ensures
            r@ == self@.name,
    {
        &self.name
    }

    /// Parse a qualified name from its `.`-separated textual form: the
    /// first segment is the project name, the last is the final name, and
    /// everything between are module segments. The project name and every
    /// module segment must be valid referent names, and there must be at
    /// least two segments; the project name is checked before the segment
    /// count, and module segments after it.
    pub fn from_text(text: &str) -> (r: Result<QualifiedName, InvalidQualifiedName>)
        ensures
            ({
                let segs = dot_split(text@);
                match r {
                    Ok(q) => {
                        &&& segs.len() >= 2
                        &&& valid_referent(segs[0])
                        &&& forall|k: int|
                            1 <= k < segs.len() - 1 ==> valid_referent(#[trigger] segs[k])
                        &&& q.wf()
                        &&& q@.project == segs[0]
                        &&& q@.modules == segs.subrange(1, segs.len() - 1)
                        &&& q@.name == segs[segs.len() - 1]
                    },
                    Err(InvalidQualifiedName::InvalidSegment) => !valid_referent(segs[0]) || (
                    exists|k: int| 1 <= k < segs.len() - 1 && !valid_referent(#[trigger] segs[k])),
                    Err(InvalidQualifiedName::NoModuleName) => valid_referent(segs[0])
                        && segs.len() == 1,
                    Err(InvalidQualifiedName::EmptyName) => false,
                }
            }),
    {
        let ghost segs = dot_split(text@);
        let parts = split_dots(text);
        let n = parts.len();
        proof {
            assert(segs.len() == n);
            assert(parts@[0]@ == segs[0]);
        }
        let project_name = match ReferentName::new(parts[0].as_str()) {
            Ok(p) => p,
            Err(e) => {
                return Err(e);
            },
        };
        if n == 1 {
            return Err(InvalidQualifiedName::NoModuleName);
        }
        let mut module_segments: Vec<ReferentName> = Vec::new();
        let mut k: usize = 1;
        while k < n - 1
            invariant
                1 <= k <= n - 1,
                n >= 2,
                n == parts@.len(),
                segs == dot_split(text@),
                segs == string_views(parts@),
                module_segments@.len() == k - 1,
                forall|j: int|
                    0 <= j < k - 1 ==> (#[trigger] module_segments@[j])@ == segs[j + 1]
                        && valid_referent(segs[j + 1]),
            decreases n - k,
        {
            proof {
                assert(parts@[k as int]@ == segs[k as int]);
            }
            let ghost ms_pre = module_segments@;
            match ReferentName::new(parts[k].as_str()) {
                Ok(seg) => {
                    module_segments.push(seg);
                    proof {
                        assert forall|j: int| 0 <= j < k implies (#[trigger] module_segments@[
                            j
                        ])@ == segs[j + 1] && valid_referent(segs[j + 1]) by {
                            if j < k - 1 {
                                assert(module_segments@[j] == ms_pre[j]);
                            } else {
                                assert(module_segments@[j] == seg);
                            }
                        }
                    }
                },
                Err(e) => {
                    proof {
                        assert(1 <= k < segs.len() - 1 && !valid_referent(segs[k as int]));
                        assert(exists|kk: int|
                            1 <= kk < segs.len() - 1 && !valid_referent(#[trigger] segs[kk]));
                    }
                    return Err(e);
                },
            }
            k += 1;
        }
        proof {
            assert(parts@[n - 1]@ == segs[n - 1]);
        }
        let name = parts[n - 1].clone();
        let q = QualifiedName { project_name, module_segments, name };
        proof {
            assert(q@.modules =~= segs.subrange(1, segs.len() - 1));
            assert forall|kk: int| 1 <= kk < segs.len() - 1 implies valid_referent(
                #[trigger] segs[kk],
            ) by {
                assert((module_segments@[kk - 1])@ == segs[kk]);
            }
            assert forall|kk: int| 0 <= kk < q@.modules.len() implies valid_referent(
                #[trigger] q@.modules[kk],
            ) by {
                assert(q@.modules[kk] == segs[kk + 1]);
            }
        }
        Ok(q)
    }

    /// Turn a module name into the qualified name of the type it defines:
    /// the last module segment becomes the final name.
    pub fn from_module(module: ModuleQualifiedName) -> (q: QualifiedName)
        requires
            module.wf(),
        ensures
            q.wf(),
            q@.project == module@.project,
            q@.modules == module@.segments.drop_last(),
            q@.name == module@.segments.last(),
    {
        let ModuleQualifiedName { project_name, mut segments } = module;
        let last = segments.pop();
        match last {
            Option::Some(seg) => {
                let name = seg.into_string();
                let q = QualifiedName { project_name, module_segments: segments, name };
                proof {
                    assert(q@.modules =~= module@.segments.drop_last());
                }
                q
            },
            Option::None => {
                proof {
                    assert(false);
                }
                QualifiedName {
                    project_name,
                    module_segments: segments,
                    name: String::new(),
                }
            },
        }
    }

    /// The textual form of the qualified name: all segments, project first
    /// and final name last, joined with `,`.
    pub fn to_text(&self) -> (r: String)
        ensures
            r@ == comma_joined(seq![self@.project] + self@.modules + seq![self@.name]),
    {
        let mut r: String = self.project_name.text.clone();
        let m = self.module_segments.len();
        let mut k: usize = 0;
        proof {
            reveal_strlit(",");
            assert(seq![self@.project] + self@.modules.take(0) =~= seq![self@.project]);
        }
        while k < m
            invariant
                0 <= k <= m,
                m == self.module_segments@.len(),
                r@ == comma_joined(seq![self@.project] + self@.modules.take(k as int)),
            decreases m - k,
        {
            r.append(",");
            r.append(self.module_segments[k].text.as_str());
            proof {
                reveal_strlit(",");
                let ps = seq![self@.project] + self@.modules.take(k + 1);
                assert(ps.drop_last() =~= seq![self@.project] + self@.modules.take(k as int));
                assert(ps.last() == self@.modules[k as int]);
                assert(r@ =~= comma_joined(ps));
            }
            k += 1;
        }
        r.append(",");
        r.append(self.name.as_str());
        proof {
            reveal_strlit(",");
            let full = seq![self@.project] + self@.modules + seq![self@.name];
            assert(self@.modules.take(m as int) =~= self@.modules);
            assert(full.drop_last() =~= seq![self@.project] + self@.modules);
            assert(full.last() == self@.name);
            assert(r@ =~= comma_joined(full));
        }
        r
    }
}

} // verus!
