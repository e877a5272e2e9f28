use vstd::prelude::*;
use vstd::string::*;
use crate::error::Error;
use crate::section::{FileContent, FileSection};
use crate::text::str_eq;
use crate::tree::{HasBranches, HasIdentifier, IsTree, find_branch};

verus! {

/// A raw template with its registry of sub-templates: a named section
/// placeholder in the text is expanded against the children, by name.
#[derive(Debug)]
pub struct SectionTemplate {
    pub name: String,
    pub content: String,
    pub children: Vec<SectionTemplate>,
}

/// A section-opening marker begins at `i`.
pub open spec fn spec_open_at(s: Seq<char>, i: int) -> bool {
    i + 9 <= s.len() && s.subrange(i, i + 9) == "[section("@
}

/// A section-closing marker begins at `i`.
pub open spec fn spec_close_at(s: Seq<char>, i: int) -> bool {
    i + 2 <= s.len() && s.subrange(i, i + 2) == ")]"@
}

/// The first closing marker at or after `from`.
pub open spec fn spec_first_close(s: Seq<char>, from: int) -> Option<int>
    decreases s.len() - from,
{
    if from + 2 > s.len() {
        None
    } else if spec_close_at(s, from) {
        Some(from)
    } else {
        spec_first_close(s, from + 1)
    }
}

/// The placeholder spans found from position `i` on: each opening
/// marker, matched with the nearest following closing marker; an opening
/// marker without one fails the whole scan.
pub open spec fn spec_scan(s: Seq<char>, i: int) -> Option<Seq<(int, int)>>
    decreases s.len() - i,
{
    if i >= s.len() {
        Some(Seq::empty())
    } else if spec_open_at(s, i) {
        match spec_first_close(s, i) {
            None => None,
            Some(j) => match spec_scan(s, i + 1) {
                None => None,
                Some(rest) => Some(seq![(i, j + 2)] + rest),
            },
        }
    } else {
        spec_scan(s, i + 1)
    }
}

/// Whether every placeholder of the template, and recursively of every
/// referenced sub-template, has a closing marker.
pub open spec fn spec_template_ok(t: SectionTemplate) -> bool
    decreases t, 2int, 0int,
{
    match spec_scan(t.content@, 0) {
        None => false,
        Some(spans) => spec_spans_ok(t, spans, 0),
    }
}

pub open spec fn spec_spans_ok(t: SectionTemplate, spans: Seq<(int, int)>, cursor: int) -> bool
    decreases t, 1int, spans.len(),
{
    if spans.len() == 0 {
        true
    } else {
        let (a, b) = spans[0];
        if a < cursor {
            spec_spans_ok(t, spans.drop_first(), cursor)
        } else {
            spec_name_ok(t, t.content@.subrange(a + 9, b - 2)) && spec_spans_ok(
                t,
                spans.drop_first(),
                b,
            )
        }
    }
}

pub open spec fn spec_name_ok(t: SectionTemplate, name: Seq<char>) -> bool
    decreases t, 0int, 0int,
{
    spec_child_ok(t.children@, name)
}

/// The first child named `name`, if any, is itself a sound template.
pub open spec fn spec_child_ok(s: Seq<SectionTemplate>, name: Seq<char>) -> bool
    decreases s, 2int, 0int,
{
    if s.len() == 0 {
        true
    } else if s[0].name@ == name {
        spec_template_ok(s[0])
    } else {
        spec_child_ok(s.drop_first(), name)
    }
}

/// `sec` is the expansion of the placeholder named `name` inside `t`: a
/// full expansion of the registered sub-template of that name, or a
/// fresh empty section a generator can still address and fill.
pub open spec fn spec_placeholder_expanded(
    t: SectionTemplate,
    name: Seq<char>,
    sec: FileSection,
) -> bool
    decreases t, 0int, 0int,
{
    spec_child_expanded(t.children@, name, sec)
}

/// `sec` expands the first child named `name`; without one, it is the
/// fresh empty placeholder section.
pub open spec fn spec_child_expanded(
    s: Seq<SectionTemplate>,
    name: Seq<char>,
    sec: FileSection,
) -> bool
    decreases s, 2int, 0int,
{
    if s.len() == 0 {
        sec.name@ == name && sec.content@.len() == 0
    } else if s[0].name@ == name {
        spec_template_expanded(s[0], sec)
    } else {
        spec_child_expanded(s.drop_first(), name, sec)
    }
}

/// `cs` is what expanding the spans of `t` from `cursor` on produces:
/// the literal text between consecutive spans, and one nested section
/// per span. A span that begins before the cursor lies inside an
/// already-consumed placeholder and is treated as consumed.
pub open spec fn spec_rest_expanded(
    t: SectionTemplate,
    spans: Seq<(int, int)>,
    cursor: int,
    cs: Seq<FileContent>,
) -> bool
    decreases t, 1int, spans.len(),
{
    if spans.len() == 0 {
        if cursor < t.content@.len() {
            cs.len() == 1 && (cs[0] matches FileContent::Text(x) && x@ == t.content@.subrange(
                cursor,
                t.content@.len() as int,
            ))
        } else {
            cs.len() == 0
        }
    } else {
        let (a, b) = spans[0];
        if a < cursor {
            spec_rest_expanded(t, spans.drop_first(), cursor, cs)
        } else {
            let k: int = if a > cursor {
                1
            } else {
                0
            };
            &&& cs.len() >= k + 1
            &&& (a > cursor ==> (cs[0] matches FileContent::Text(x) && x@ == t.content@.subrange(
                cursor,
                a,
            )))
            &&& (cs[k] matches FileContent::Section(sec) && spec_placeholder_expanded(
                t,
                t.content@.subrange(a + 9, b - 2),
                sec,
            ))
            &&& spec_rest_expanded(t, spans.drop_first(), b, cs.skip(k + 1))
        }
    }
}

/// `sec` is the full expansion of template `t`.
pub open spec fn spec_template_expanded(t: SectionTemplate, sec: FileSection) -> bool
    decreases t, 2int, 0int,
{
    &&& sec.name@ == t.name@
    &&& match spec_scan(t.content@, 0) {
        None => false,
        Some(spans) => spec_rest_expanded(t, spans, 0, sec.content@),
    }
}

impl SectionTemplate {
    /// Builds a template from its name and raw text, with no
    /// sub-templates registered yet.
    pub fn new(name: &str, content: &str) -> (r: SectionTemplate)
        ensures
            r.name@ == name@,
            r.content@ == content@,
            r.children@.len() == 0,
    {
        SectionTemplate {
            name: String::from_str(name),
            content: String::from_str(content),
            children: Vec::new(),
        }
    }

    /// Registers a sub-template.
    pub fn register(&mut self, child: SectionTemplate)
        ensures
            final(self).name == old(self).name,
            final(self).content == old(self).content,
            final(self).children@ == old(self).children@.push(child),
    {
        self.children.push(child);
    }
}

impl HasIdentifier for SectionTemplate {
    open spec fn spec_identifier(&self) -> Seq<char> {
        self.name@
    }

    fn identifier(&self) -> (r: &String) {
        &self.name
    }
}

impl HasBranches for SectionTemplate {
    open spec fn spec_branches(&self) -> Seq<SectionTemplate> {
        self.children@
    }
}

impl IsTree for SectionTemplate {
    fn is(&self, identifier: &str) -> (r: bool) {
        str_eq(identifier, self.name.as_str())
    }

    fn get(&self, key: &str) -> (r: Option<&SectionTemplate>) {
        let n = self.children.len();
        let mut i: usize = 0;
        proof {
            assert(self.children@.skip(0) =~= self.children@);
        }
        loop
            invariant
                0 <= i <= n,
                n == self.children@.len(),
                find_branch(self.children@, key@) == find_branch(
                    self.children@.skip(i as int),
                    key@,
                ),
            decreases n - i,
        {
            if i == n {
                return None;
            }
            proof {
                assert(self.children@.skip(i as int)[0] == self.children@[i as int]);
            }
            if str_eq(self.children[i].name.as_str(), key) {
                return Some(&self.children[i]);
            }
            proof {
                assert(self.children@.skip(i as int).drop_first() =~= self.children@.skip(i + 1));
            }
            i += 1;
        }
    }

    fn branches(&self) -> (r: Vec<&SectionTemplate>) {
        let n = self.children.len();
        let mut r: Vec<&SectionTemplate> = Vec::new();
        let mut i: usize = 0;
        while i < n
            invariant
                0 <= i <= n,
                n == self.children@.len(),
                r@.len() == i,
                forall|j: int| 0 <= j < i ==> *(#[trigger] r@[j]) == self.children@[j],
            decreases n - i,
        {
            r.push(&self.children[i]);
            i += 1;
        }
        r
    }

    fn path_get(&self, path: &[&str]) -> (r: Option<&SectionTemplate>) {
        let n = path.len();
        let mut current: &SectionTemplate = self;
        let mut i: usize = 0;
        let ghost names = path@.map_values(|s: &str| s@);
        proof {
            assert(names.skip(0) =~= names);
        }
        loop
            invariant
                0 <= i <= n,
                n == names.len(),
                n == path@.len(),
                names == path@.map_values(|s: &str| s@),
                crate::tree::spec_path_get(*self, names) == crate::tree::spec_path_get(
                    *current,
                    names.skip(i as int),
                ),
            decreases n - i,
        {
            if i == n {
                return Some(current);
            }
            proof {
                assert(names.skip(i as int)[0] == names[i as int]);
            }
            let child = match current.get(path[i]) {
                Some(child) => child,
                None => {
                    return None;
                },
            };
            proof {
                assert(names.skip(i as int).drop_first() =~= names.skip(i + 1));
            }
            current = child;
            i += 1;
        }
    }
}

/// Whether `pat` occurs in `s` at position `i`.
fn matches_at(s: &str, i: usize, pat: &str) -> (r: bool)
    requires
        i <= s@.len(),
    ensures
        r == (i + pat@.len() <= s@.len() && s@.subrange(i as int, i + pat@.len()) == pat@),
{
    let m = pat.unicode_len();
    let n = s.unicode_len();
    if m > n - i {
        return false;
    }
    let mut k: usize = 0;
    while k < m
        invariant
            0 <= k <= m,
            m == pat@.len(),
            n == s@.len(),
            i + m <= n,
            forall|j: int| 0 <= j < k ==> s@[i + j] == pat@[j],
        decreases m - k,
    {
        if s.get_char(i + k) != pat.get_char(k) {
            proof {
                if s@.subrange(i as int, i + pat@.len()) == pat@ {
                    assert(s@.subrange(i as int, i + pat@.len())[k as int] == s@[i + k]);
                }
            }
            return false;
        }
        k += 1;
    }
    proof {
        assert(s@.subrange(i as int, i + pat@.len()) =~= pat@);
    }
    true
}


/// The integer view of a span list.
pub open spec fn spans_view(spans: Seq<(usize, usize)>) -> Seq<(int, int)> {
    spans.map_values(|p: (usize, usize)| (p.0 as int, p.1 as int))
}

/// Every span lies inside the text and has room for both markers and a
/// name between them.
pub open spec fn spec_spans_valid(s: Seq<char>, spans: Seq<(int, int)>) -> bool {
    forall|k: int|
        0 <= k < spans.len() ==> 0 <= (#[trigger] spans[k]).0 && spans[k].0 + 9 <= spans[k].1 - 2
            && spans[k].1 <= s.len()
}

/// A closing marker at or after an opening one leaves room for a name:
/// none of the opening marker's own characters starts a closing marker.
proof fn lemma_close_after_open(s: Seq<char>, i: int, j: int)
    requires
        0 <= i <= j,
        spec_open_at(s, i),
        spec_close_at(s, j),
    ensures
        j >= i + 9,
{
    reveal_strlit("[section(");
    reveal_strlit(")]");
    if j < i + 9 {
        assert(s.subrange(j, j + 2)[0] == s[j]);
        assert(s[j] == ")]"@[0]);
        assert(s.subrange(i, i + 9)[j - i] == s[j]);
        assert(s[j] == "[section("@[j - i]);
    }
}

impl FileSection {
    /// Finds every placeholder span of a template's text: each opening
    /// marker paired with the nearest following closing marker; an
    /// opening marker with no closing marker after it is an error.
    pub fn get_sections_ranges(template: &SectionTemplate) -> (r: Result<
        Vec<(usize, usize)>,
        Error,
    >)
        ensures
            match r {
                Ok(spans) => spec_scan(template.content@, 0) == Some(spans_view(spans@))
                    && spec_spans_valid(template.content@, spans_view(spans@)),
                Err(_) => spec_scan(template.content@, 0) is None,
            },
    {
        let s = template.content.as_str();
        let n = s.unicode_len();
        let mut spans: Vec<(usize, usize)> = Vec::new();
        let mut i: usize = 0;
        proof {
            assert(spans_view(spans@) =~= Seq::<(int, int)>::empty());
        }
        while i < n
            invariant
                0 <= i <= n,
                n == template.content@.len(),
                s@ == template.content@,
                spec_spans_valid(s@, spans_view(spans@)),
                match spec_scan(s@, i as int) {
                    None => spec_scan(s@, 0) is None,
                    Some(rest) => spec_scan(s@, 0) == Some(spans_view(spans@) + rest),
                },
            decreases n - i,
        {
            if matches_at(s, i, "[section(") {
                proof {
                    assert("[section("@.len() == 9) by {
                        reveal_strlit("[section(");
                    }
                    assert(spec_open_at(s@, i as int));
                }
                // find the nearest closing marker
                let mut j: usize = i;
                while n - j >= 2 && !matches_at(s, j, ")]")
                    invariant
                        i <= j <= n,
                        n == template.content@.len(),
                        s@ == template.content@,
                        spec_first_close(s@, i as int) == spec_first_close(s@, j as int),
                    decreases n - j,
                {
                    proof {
                        assert(")]"@.len() == 2) by {
                            reveal_strlit(")]");
                        }
                        assert(!spec_close_at(s@, j as int));
                    }
                    j += 1;
                }
                proof {
                    assert(")]"@.len() == 2) by {
                        reveal_strlit(")]");
                    }
                }
                if n - j < 2 {
                    proof {
                        assert(spec_first_close(s@, j as int) is None);
                        assert(spec_scan(s@, i as int) is None);
                    }
                    return Err(
                        Error::Message(
                            String::from_str("failed to parse template: missing section end"),
                        ),
                    );
                }
                proof {
                    assert(spec_close_at(s@, j as int));
                    assert(spec_first_close(s@, j as int) == Some(j as int));
                    lemma_close_after_open(s@, i as int, j as int);
                }
                let ghost spans0 = spans_view(spans@);
                spans.push((i, j + 2));
                proof {
                    assert(spans_view(spans@) =~= spans0.push((i as int, j + 2int)));
                    match spec_scan(s@, i + 1) {
                        None => {
                            assert(spec_scan(s@, i as int) is None);
                        },
                        Some(rest) => {
                            assert(spec_scan(s@, i as int) == Some(
                                seq![(i as int, j + 2int)] + rest,
                            ));
                            assert(spans0 + (seq![(i as int, j + 2int)] + rest) =~= spans_view(
                                spans@,
                            ) + rest);
                        },
                    }
                }
            }
            i += 1;
        }
        proof {
            assert(spec_scan(s@, n as int) == Some(Seq::<(int, int)>::empty()));
            assert(spans_view(spans@) + Seq::<(int, int)>::empty() =~= spans_view(spans@));
        }
        Ok(spans)
    }

    /// Builds a file section from a template: the template's literal
    /// text, with each placeholder replaced by the expansion of the
    /// sub-template it names, or by a fresh empty section when none is
    /// registered.
    pub fn from_template(template: &SectionTemplate) -> (r: Result<FileSection, Error>)
        ensures
            r is Ok <==> spec_template_ok(*template),
            r matches Ok(sec) ==> spec_template_expanded(*template, sec),
        decreases *template, 3int, 0int,
    {
        let spans = match FileSection::get_sections_ranges(template) {
            Ok(spans) => spans,
            Err(e) => {
                return Err(e);
            },
        };
        let mut section = FileSection::new(template.name.as_str());
        match FileSection::write_from_template(&mut section, template, spans, 0) {
            Ok(()) => {
                proof {
                    assert(section.content@.skip(0) =~= section.content@);
                }
                Ok(section)
            },
            Err(e) => Err(e),
        }
    }

    /// Writes a template's pieces into this section, starting at text
    /// position `cursor`: the literal text up to each span, then the
    /// span's expanded placeholder, then the text after the last span.
    fn write_from_template(
        &mut self,
        template: &SectionTemplate,
        spans: Vec<(usize, usize)>,
        cursor: usize,
    ) -> (r: Result<(), Error>)
        requires
            spec_spans_valid(template.content@, spans_view(spans@)),
            cursor <= template.content@.len(),
        ensures
            r is Ok <==> spec_spans_ok(*template, spans_view(spans@), cursor as int),
            r is Ok ==> final(self).content@.len() >= old(self).content@.len(),
            r is Ok ==> final(self).content@.take(old(self).content@.len() as int) == old(
                self,
            ).content@,
            r is Ok ==> spec_rest_expanded(
                *template,
                spans_view(spans@),
                cursor as int,
                final(self).content@.skip(old(self).content@.len() as int),
            ),
            final(self).name == old(self).name,
        decreases *template, 2int, spans@.len(),
    {
        let ghost all_spans = spans_view(spans@);
        let text = template.content.as_str();
        let n = text.unicode_len();
        let mut rest_spans = spans;
        if rest_spans.len() == 0 {
            if cursor < n {
                let after = text.substring_char(cursor, n);
                self.write(after);
                proof {
                    assert(self.content@.take(old(self).content@.len() as int) =~= old(
                        self,
                    ).content@);
                    assert(self.content@.skip(old(self).content@.len() as int) =~= seq![
                        self.content@.last()]);
                }
            } else {
                proof {
                    assert(self.content@.take(old(self).content@.len() as int) =~= old(
                        self,
                    ).content@);
                    assert(self.content@.skip(old(self).content@.len() as int) =~= Seq::<
                        FileContent,
                    >::empty());
                }
            }
            return Ok(());
        }
        let (a, b) = rest_spans.remove(0);
        proof {
            assert((a as int, b as int) == all_spans[0]);
            assert(spans_view(rest_spans@) =~= all_spans.drop_first());
        }
        if a < cursor {
            let r = self.write_from_template(template, rest_spans, cursor);
            proof {
                assert(all_spans[0].0 < cursor);
            }
            return r;
        }
        if a > cursor {
            let before = text.substring_char(cursor, a);
            self.write(before);
        }
        let ghost mid = self.content@;
        let ghost base = old(self).content@.len() as int;
        let ghost k: int = if a > cursor {
            1int
        } else {
            0int
        };
        proof {
            assert(mid.len() == base + k);
            assert(mid.take(base) =~= old(self).content@);
        }
        let name = text.substring_char(a + 9, b - 2);
        proof {
            assert(name@ == template.content@.subrange(a + 9, b - 2));
        }
        let child = template.get(name);
        let ghost child_ok: bool;
        match child {
            Some(sub) => {
                proof {
                    crate::tree::lemma_find_branch_member(template.children@, name@, *sub);
                    let w = choose|ci: int|
                        0 <= ci < template.children@.len() && template.children@[ci] == *sub;
                    assert(decreases_to!(*template => template.children@[w]));
                    lemma_child_found(template.children@, name@, *sub);
                }
                match FileSection::from_template(sub) {
                    Ok(sec) => {
                        proof {
                            assert(spec_child_expanded(template.children@, name@, trig_sec(sec))
                                == spec_template_expanded(*sub, sec));
                            assert(spec_placeholder_expanded(*template, name@, sec));
                            assert(spec_name_ok(*template, name@));
                        }
                        self.add_branch(sec);
                    },
                    Err(e) => {
                        proof {
                            assert(!spec_template_ok(*sub));
                            assert(!spec_name_ok(*template, name@));
                            assert(!spec_spans_ok(*template, all_spans, cursor as int));
                        }
                        return Err(e);
                    },
                }
            },
            None => {
                let fresh = FileSection::new(name);
                proof {
                    lemma_child_missing(template.children@, name@);
                    assert(spec_child_expanded(template.children@, name@, trig_sec(fresh)) == (
                    fresh.name@ == name@ && fresh.content@.len() == 0));
                    assert(spec_placeholder_expanded(*template, name@, fresh));
                    assert(spec_name_ok(*template, name@));
                }
                self.add_branch(fresh);
            },
        }
        let ghost before_rec = self.content@;
        proof {
            assert(before_rec.len() == base + k + 1);
            assert(before_rec.take(base) =~= old(self).content@);
            assert(before_rec.last() matches FileContent::Section(sec) && spec_placeholder_expanded(
                *template,
                template.content@.subrange(a + 9, b - 2),
                sec,
            ));
        }
        let r = self.write_from_template(template, rest_spans, b);
        match r {
            Ok(()) => {
                proof {
                    assert(self.content@.take(before_rec.len() as int) == before_rec);
                    assert forall|x: int| 0 <= x < before_rec.len() implies self.content@[x]
                        == before_rec[x] by {
                        assert(self.content@.take(before_rec.len() as int)[x] == self.content@[x]);
                    }
                    assert(self.content@.take(base) =~= old(self).content@);
                    let added = self.content@.skip(base);
                    assert(added.len() >= k + 1);
                    if a > cursor {
                        assert(added[0] == self.content@[base]);
                        assert(self.content@[base] == before_rec[base]);
                        assert(before_rec[base] == mid[base]);
                        assert(mid[base] == mid.last());
                    }
                    assert(added[k] == self.content@[base + k]);
                    assert(self.content@[base + k] == before_rec[base + k]);
                    assert(before_rec[base + k] == before_rec.last());
                    assert(added.skip(k + 1) =~= self.content@.skip(before_rec.len() as int));
                    assert(spec_rest_expanded(
                        *template,
                        all_spans.drop_first(),
                        b as int,
                        self.content@.skip(before_rec.len() as int),
                    ));
                    assert(spec_rest_expanded(*template, all_spans, cursor as int, added));
                }
                Ok(())
            },
            Err(e) => Err(e),
        }
    }
}

/// When `find_branch` finds a template, placeholder expansion and/// When `find_branch` finds a template, placeholder expansion and
/// soundness for that name go through the found template.
proof fn lemma_child_found(s: Seq<SectionTemplate>, name: Seq<char>, b: SectionTemplate)
    requires
        find_branch(s, name) == Some(b),
    ensures
        forall|sec: FileSection| spec_child_expanded(s, name, #[trigger] trig_sec(sec))
            == spec_template_expanded(b, sec),
        spec_child_ok(s, name) == spec_template_ok(b),
    decreases s.len(),
{
    if s.len() > 0 && s[0].name@ != name {
        lemma_child_found(s.drop_first(), name, b);
        assert forall|sec: FileSection| spec_child_expanded(s, name, #[trigger] trig_sec(sec))
            == spec_template_expanded(b, sec) by {
            assert(spec_child_expanded(s.drop_first(), name, trig_sec(sec))
                == spec_template_expanded(b, sec));
        }
    }
}

/// Without a registered template of that name, the placeholder expands
/// to a fresh empty section.
proof fn lemma_child_missing(s: Seq<SectionTemplate>, name: Seq<char>)
    requires
        find_branch(s, name) is None,
    ensures
        forall|sec: FileSection| spec_child_expanded(s, name, #[trigger] trig_sec(sec)) == (
        sec.name@ == name && sec.content@.len() == 0),
        spec_child_ok(s, name),
    decreases s.len(),
{
    if s.len() > 0 {
        lemma_child_missing(s.drop_first(), name);
        assert forall|sec: FileSection| spec_child_expanded(s, name, #[trigger] trig_sec(sec)) == (
        sec.name@ == name && sec.content@.len() == 0) by {
            assert(spec_child_expanded(s.drop_first(), name, trig_sec(sec)) == (sec.name@ == name
                && sec.content@.len() == 0));
        }
    }
}

/// A trigger marker for sections.
pub open spec fn trig_sec(sec: FileSection) -> FileSection {
    sec
}

} // verus!
