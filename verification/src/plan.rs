//! Reading a Markdown plan line by line: front matter, the plan title,
//! units, the structural sections and their items, and unit fields. The
//! state a line leaves is stated as a function of the state before it.

use vstd::prelude::*;

use crate::names::NameSet;
use crate::plan_syntax::{
    alphanumeric, anchor_of, declaration, declaration_like, declaration_of, fence_marker, fence_of, fields_from,
    heading, heading_anchor, heading_of, looks_like_declaration, lowercase, opt_names, parse_unit_fields, Unit,
};
use crate::text::{
    chars_of, decimal, is_digit, mentions, occurs_at, occurs_here, owned, push_chars, push_decimal, push_str,
    same_chars, string_of, texts, trim, trim_range,
};

verus! {

/// A unit as a specification reads it.
pub struct UnitV {
    pub id: Seq<char>,
    pub source: Seq<char>,
    pub requirements: Option<Seq<Seq<char>>>,
    pub dependencies: Option<Seq<Seq<char>>>,
}

impl View for Unit {
    type V = UnitV;

    open spec fn view(&self) -> UnitV {
        UnitV {
            id: self.id@,
            source: self.source@,
            requirements: opt_names(self.requirements),
            dependencies: opt_names(self.dependencies),
        }
    }
}

/// What the current structural section has listed so far.
#[derive(Clone, Copy, PartialEq, Eq, Structural)]
pub enum Listed {
    /// No item yet.
    Nothing,
    /// At least one item.
    Items,
    /// The sole item `- None`.
    NoneMarker,
}

/// The state of reading a plan's body.
pub struct PlanState {
    pub headings: Set<Seq<char>>,
    pub anchor: Seq<char>,
    pub section: Seq<char>,
    pub section_level: int,
    pub title: bool,
    pub units: Seq<UnitV>,
    pub current: Option<int>,
    pub requirement_ids: Set<Seq<char>>,
    pub ids: Set<Seq<char>>,
    pub seen: Set<Seq<char>>,
    pub listed: Listed,
    pub fence: Option<(char, int)>,
    /// Declared symbols: value, label and where.
    pub symbols: Seq<(Seq<char>, Seq<char>, Seq<char>)>,
    /// Asserted facts: relation, arguments and where.
    pub facts: Seq<(Seq<char>, Seq<Seq<char>>, Seq<char>)>,
}

/// The state before the first body line.
pub open spec fn initial_state() -> PlanState {
    PlanState {
        headings: Set::empty(),
        anchor: Seq::empty(),
        section: Seq::empty(),
        section_level: 0,
        title: false,
        units: Seq::empty(),
        current: None,
        requirement_ids: Set::empty(),
        ids: Set::empty(),
        seen: Set::empty(),
        listed: Listed::Nothing,
        fence: None,
        symbols: Seq::empty(),
        facts: Seq::empty(),
    }
}

/// A diagnostic about line `index`, counted from 0.
pub open spec fn at_line(index: int, message: Seq<char>) -> Seq<char> {
    "line "@ + decimal((index + 1) as nat) + ": "@ + message
}

/// The four structural sections, in the order their absence is reported.
pub open spec fn structural(text: Seq<char>) -> bool {
    text == "Requirements"@ || text == "Gates"@ || text == "Deferred"@ || text == "Semantic inputs"@
}

/// The id family and fact relation of a structural section's items.
pub open spec fn section_family(section: Seq<char>) -> (char, Seq<char>) {
    if section == "Requirements"@ {
        ('R', "requirement"@)
    } else if section == "Gates"@ {
        ('G', "gate"@)
    } else if section == "Deferred"@ {
        ('D', "deferred"@)
    } else {
        ('S', "semantic_input"@)
    }
}

/// A heading text that declares a unit: `U` and a digit.
pub open spec fn unit_heading(text: Seq<char>) -> bool {
    text.len() >= 2 && text[0] == 'U' && is_digit(text[1])
}

/// The state after heading line `index` of `level` and `text`.
pub open spec fn heading_step(st: PlanState, source: Seq<char>, index: int, level: int, text: Seq<char>) -> Result<PlanState, Seq<char>> {
    let closing = st.section.len() > 0 && level <= st.section_level;
    if closing && st.listed == Listed::Nothing {
        Err(at_line(index, st.section + " requires items or '- None'"@))
    } else {
        let anchor = anchor_of(lowercase(text));
        if anchor.len() == 0 || st.headings.contains(anchor) {
            Err(at_line(index, "empty or duplicate heading anchor is unsupported"@))
        } else if level == 1 && st.title {
            Err(at_line(index, "only one level-one plan title is supported"@))
        } else {
            let loc = source + "#"@ + anchor;
            let st1 = PlanState {
                section: if closing { Seq::empty() } else { st.section },
                current: if level <= 3 { None } else { st.current },
                headings: st.headings.insert(anchor),
                anchor,
                title: st.title || level == 1,
                symbols: if level == 1 { st.symbols.push(("plan"@, text, loc)) } else { st.symbols },
                facts: if level == 1 { st.facts.push(("plan"@, seq!["plan"@], loc)) } else { st.facts },
                ..st
            };
            let r2: Result<PlanState, Seq<char>> = if unit_heading(text) {
                if level != 3 {
                    Err(at_line(index, "units must use level-three headings"@))
                } else {
                    match declaration_of(text, 'U') {
                        Err(m) => Err(at_line(index, m)),
                        Ok((id, label)) => if st1.ids.contains(id) {
                            Err(at_line(index, "duplicate id "@ + id))
                        } else {
                            Ok(PlanState {
                                ids: st1.ids.insert(id),
                                symbols: st1.symbols.push((id, label, loc)),
                                facts: st1.facts.push(("scheduled"@, seq![id], loc)).push(("plan_item"@, seq!["plan"@, id], loc)),
                                units: st1.units.push(UnitV { id, source: loc, requirements: None, dependencies: None }),
                                current: Some(st1.units.len() as int),
                                ..st1
                            })
                        },
                    }
                }
            } else {
                Ok(st1)
            };
            match r2 {
                Err(m) => Err(m),
                Ok(st2) => if structural(text) {
                    if st2.section.len() > 0 {
                        Err(at_line(index, "nested structural sections are unsupported"@))
                    } else if st2.seen.contains(text) {
                        Err(at_line(index, "duplicate "@ + text + " section"@))
                    } else {
                        Ok(PlanState { seen: st2.seen.insert(text), section: text, section_level: level, listed: Listed::Nothing, ..st2 })
                    }
                } else if st2.section.len() > 0 {
                    Err(at_line(index, "nested headings in structural lists are unsupported"@))
                } else {
                    Ok(st2)
                },
            }
        }
    }
}

/// The state after a unit field line.
pub open spec fn field_step(st: PlanState, index: int, line: Seq<char>) -> Result<PlanState, Seq<char>> {
    match st.current {
        None => Err(at_line(index, "unit fields outside a unit"@)),
        Some(u) => if 0 <= u < st.units.len() {
            match fields_from(line, st.units[u].requirements, st.units[u].dependencies) {
                Err(m) => Err(at_line(index, m)),
                Ok((req, dep)) => Ok(PlanState {
                    units: st.units.update(u, UnitV { requirements: req, dependencies: dep, ..st.units[u] }),
                    ..st
                }),
            }
        } else {
            Ok(st)
        },
    }
}

/// The label of a line wrapped in `**`, if it is one.
pub open spec fn bold_label(line: Seq<char>) -> Option<Seq<char>> {
    if line.len() >= 4 && occurs_at(line, "**"@, 0) && occurs_at(line, "**"@, line.len() - 2) {
        let label = line.subrange(2, line.len() - 2);
        if label.len() > 0 && !mentions(label, "**"@) { Some(label) } else { None }
    } else {
        None
    }
}

/// The state after a line inside a structural section.
pub open spec fn item_step(st: PlanState, source: Seq<char>, index: int, line: Seq<char>) -> Result<PlanState, Seq<char>> {
    match bold_label(line) {
        Some(label) => if declaration_like(label) {
            Err(at_line(index, "bold-wrapped structural declarations are unsupported"@))
        } else {
            Ok(st)
        },
        None => if !occurs_at(line, "- "@, 0) {
            Err(at_line(index, st.section + " accepts only '- ID. Label' or '- None'"@))
        } else {
            let item = line.skip(2);
            if item == "None"@ {
                if st.listed != Listed::Nothing || st.section == "Requirements"@ {
                    Err(at_line(index, "None must be the sole item of a non-requirement section"@))
                } else {
                    Ok(PlanState { listed: Listed::NoneMarker, ..st })
                }
            } else if st.listed == Listed::NoneMarker {
                Err(at_line(index, "items cannot follow None"@))
            } else {
                let (family, relation) = section_family(st.section);
                match declaration_of(item, family) {
                    Err(m) => Err(at_line(index, m)),
                    Ok((id, label)) => if st.ids.contains(id) {
                        Err(at_line(index, "duplicate id "@ + id))
                    } else {
                        let loc = source + "#"@ + st.anchor;
                        let facts = st.facts.push((relation, seq![id], loc));
                        Ok(PlanState {
                            ids: st.ids.insert(id),
                            requirement_ids: if family == 'R' { st.requirement_ids.insert(id) } else { st.requirement_ids },
                            symbols: st.symbols.push((id, label, loc)),
                            facts: if family == 'R' || family == 'G' { facts.push(("plan_item"@, seq!["plan"@, id], loc)) } else { facts },
                            listed: Listed::Items,
                            ..st
                        })
                    },
                }
            }
        },
    }
}

/// The state after body line `index`, `raw` before trimming.
pub open spec fn line_step(st: PlanState, source: Seq<char>, index: int, raw: Seq<char>) -> Result<PlanState, Seq<char>> {
    let line = trim(raw);
    match st.fence {
        Some((d, n)) => {
            let closes = match fence_of(line) {
                Some((m, size)) => m == d && size >= n && trim(line.skip(size)).len() == 0,
                None => false,
            };
            Ok(if closes { PlanState { fence: None, ..st } } else { st })
        },
        None => match fence_of(line) {
            Some(mark) => Ok(PlanState { fence: Some(mark), ..st }),
            None => match heading_of(line) {
                Some((level, text)) => heading_step(st, source, index, level, text),
                None => if line.len() == 0 {
                    Ok(st)
                } else if mentions(line, "Requirements:"@) || mentions(line, "Dependencies:"@) {
                    field_step(st, index, line)
                } else if st.section.len() > 0 {
                    item_step(st, source, index, line)
                } else if line.len() >= 2 && line[0] == '-' && (line[1] as u32) < 128 && declaration_like(line.skip(2)) {
                    Err(at_line(index, "structural declaration outside its named section"@))
                } else {
                    Ok(st)
                },
            },
        },
    }
}

/// The state after body lines `lines[i..]`, or the first diagnostic.
pub open spec fn body_from(lines: Seq<Seq<char>>, source: Seq<char>, i: int, st: PlanState) -> Result<PlanState, Seq<char>>
    decreases lines.len() - i,
{
    if i < 0 || i >= lines.len() {
        Ok(st)
    } else {
        match line_step(st, source, i, lines[i]) {
            Err(m) => Err(m),
            Ok(next) => body_from(lines, source, i + 1, next),
        }
    }
}

/// Where the body starts after front matter that opens at line 0: the line
/// after the closing `---`, once exactly one contract line named the plan
/// format.
pub open spec fn front_from(lines: Seq<Seq<char>>, i: int, contract: bool) -> Result<int, Seq<char>>
    decreases lines.len() - i,
{
    if i < 0 || i >= lines.len() {
        Err("missing ce-unified-plan/v1 front matter"@)
    } else if lines[i] == "---"@ {
        if contract { Ok(i + 1) } else { Err("missing ce-unified-plan/v1 front matter"@) }
    } else if occurs_at(lines[i], "artifact_contract:"@, 0) {
        if contract || trim(lines[i]) != "artifact_contract: ce-unified-plan/v1"@ {
            Err("expected one artifact_contract: ce-unified-plan/v1"@)
        } else {
            front_from(lines, i + 1, true)
        }
    } else {
        front_from(lines, i + 1, contract)
    }
}

/// Where a plan's body starts, or why its front matter is refused.
pub open spec fn body_start(lines: Seq<Seq<char>>) -> Result<int, Seq<char>> {
    if lines.len() == 0 || lines[0] != "---"@ {
        Err("plan must start with YAML front matter"@)
    } else {
        front_from(lines, 1, false)
    }
}

} // verus!

verus! {

/// The state of reading a plan's body, kept by the reader.
pub struct Builder {
    headings: NameSet,
    anchor: Vec<char>,
    section: Vec<char>,
    section_level: usize,
    title: bool,
    units: Vec<Unit>,
    current: Option<usize>,
    requirement_ids: NameSet,
    ids: NameSet,
    seen: NameSet,
    listed: Listed,
    fence: Option<(char, usize)>,
    symbols: Vec<(String, String, String)>,
    facts: Vec<(String, Vec<String>, String)>,
}

/// The view of an optional position.
pub open spec fn opt_int(o: Option<usize>) -> Option<int> {
    match o {
        Some(k) => Some(k as int),
        None => None,
    }
}

/// The view of an optional fence.
pub open spec fn fence_view(o: Option<(char, usize)>) -> Option<(char, int)> {
    match o {
        Some((c, n)) => Some((c, n as int)),
        None => None,
    }
}

impl View for Builder {
    type V = PlanState;

    closed spec fn view(&self) -> PlanState {
        PlanState {
            headings: self.headings.members(),
            anchor: self.anchor@,
            section: self.section@,
            section_level: self.section_level as int,
            title: self.title,
            units: self.units@.map_values(|u: Unit| u@),
            current: opt_int(self.current),
            requirement_ids: self.requirement_ids.members(),
            ids: self.ids.members(),
            seen: self.seen.members(),
            listed: self.listed,
            fence: fence_view(self.fence),
            symbols: self.symbols@.map_values(|s: (String, String, String)| (s.0@, s.1@, s.2@)),
            facts: self.facts@.map_values(|f: (String, Vec<String>, String)| (f.0@, texts(f.1@), f.2@)),
        }
    }
}

impl Builder {
    pub closed spec fn wf(&self) -> bool {
        &&& self.headings.wf()
        &&& self.requirement_ids.wf()
        &&& self.ids.wf()
        &&& self.seen.wf()
    }

    pub fn new() -> (b: Builder)
        ensures
            b.wf(),
            b@ == initial_state(),
    {
        let b = Builder {
            headings: NameSet::new(),
            anchor: Vec::new(),
            section: Vec::new(),
            section_level: 0,
            title: false,
            units: Vec::new(),
            current: None,
            requirement_ids: NameSet::new(),
            ids: NameSet::new(),
            seen: NameSet::new(),
            listed: Listed::Nothing,
            fence: None,
            symbols: Vec::new(),
            facts: Vec::new(),
        };
        assert(b@.units =~= Seq::<UnitV>::empty());
        assert(b@.symbols =~= Seq::<(Seq<char>, Seq<char>, Seq<char>)>::empty());
        assert(b@.facts =~= Seq::<(Seq<char>, Seq<Seq<char>>, Seq<char>)>::empty());
        assert(b@.anchor =~= Seq::<char>::empty());
        assert(b@.section =~= Seq::<char>::empty());
        b
    }
}

/// A diagnostic about line `index`.
fn line_error(index: usize, message: &[char]) -> (r: String)
    requires
        index < usize::MAX,
    ensures
        r@ == at_line(index as int, message@),
{
    let mut m = owned("line ");
    let n = index + 1;
    push_decimal(&mut m, n as u64);
    push_str(&mut m, ": ");
    push_chars(&mut m, message);
    m
}

fn line_error_text(index: usize, message: &str) -> (r: String)
    requires
        index < usize::MAX,
    ensures
        r@ == at_line(index as int, message@),
{
    let t = chars_of(message);
    line_error(index, &t)
}

/// `source#anchor`.
fn location(source: &str, anchor: &[char]) -> (r: String)
    ensures
        r@ == source@ + "#"@ + anchor@,
{
    let mut m = owned(source);
    push_str(&mut m, "#");
    push_chars(&mut m, anchor);
    m
}

/// Whether `text` names a structural section.
fn is_structural(text: &[char]) -> (r: bool)
    ensures
        r == structural(text@),
{
    same_chars(text, &chars_of("Requirements")) || same_chars(text, &chars_of("Gates"))
        || same_chars(text, &chars_of("Deferred")) || same_chars(text, &chars_of("Semantic inputs"))
}

} // verus!

verus! {

/// `vec![..]` of one string.
fn one(a: String) -> (r: Vec<String>)
    ensures
        texts(r@) == seq![a@],
{
    let r = vec![a];
    assert(texts(r@) =~= seq![r@[0]@]);
    r
}

/// `vec![..]` of two strings.
fn two(a: String, b: String) -> (r: Vec<String>)
    ensures
        texts(r@) == seq![a@, b@],
{
    let r = vec![a, b];
    assert(texts(r@) =~= seq![r@[0]@, r@[1]@]);
    r
}

impl Builder {
    fn push_symbol(&mut self, value: String, label: String, loc: String)
        ensures
            final(self)@ == (PlanState { symbols: old(self)@.symbols.push((value@, label@, loc@)), ..old(self)@ }),
            final(self).wf() == old(self).wf(),
    {
        let ghost before = self@;
        self.symbols.push((value, label, loc));
        assert(self@.symbols =~= before.symbols.push((value@, label@, loc@)));
        assert(self@ =~= PlanState { symbols: before.symbols.push((value@, label@, loc@)), ..before });
    }

    fn push_fact(&mut self, relation: &str, args: Vec<String>, loc: String)
        ensures
            final(self)@ == (PlanState { facts: old(self)@.facts.push((relation@, texts(args@), loc@)), ..old(self)@ }),
            final(self).wf() == old(self).wf(),
    {
        let ghost before = self@;
        let ghost a = texts(args@);
        self.facts.push((owned(relation), args, loc));
        assert(self@.facts =~= before.facts.push((relation@, a, loc@)));
        assert(self@ =~= PlanState { facts: before.facts.push((relation@, a, loc@)), ..before });
    }

    /// Read heading line `index` of `level` and `text`.
    fn heading_line(&mut self, source: &str, index: usize, level: usize, text: &[char]) -> (r: Result<(), String>)
        requires
            old(self).wf(),
            index < usize::MAX,
        ensures
            final(self).wf(),
            match heading_step(old(self)@, source@, index as int, level as int, text@) {
                Ok(st) => r is Ok && final(self)@ == st,
                Err(m) => r matches Err(x) && x@ == m,
            },
    {
        let ghost st = self@;
        let closing = self.section.len() > 0 && level <= self.section_level;
        if closing && self.listed == Listed::Nothing {
            let mut msg = self.section.clone();
            let tail = chars_of(" requires items or '- None'");
            let mut k: usize = 0;
            let ghost head = msg@;
            while k < tail.len()
                invariant
                    k <= tail@.len(),
                    msg@ == head + tail@.take(k as int),
                decreases tail@.len() - k,
            {
                msg.push(tail[k]);
                k = k + 1;
                assert(msg@ =~= head + tail@.take(k as int));
            }
            assert(tail@.take(k as int) =~= tail@);
            return Err(line_error(index, &msg));
        }
        let text_s = string_of(text);
        let anchor_s = heading_anchor(text_s.as_str());
        let anchor = chars_of(anchor_s.as_str());
        if anchor.len() == 0 || self.headings.contains(anchor_s.as_str()) {
            return Err(line_error_text(index, "empty or duplicate heading anchor is unsupported"));
        }
        if level == 1 && self.title {
            return Err(line_error_text(index, "only one level-one plan title is supported"));
        }
        let loc = location(source, &anchor);
        if closing {
            self.section = Vec::new();
        }
        if level <= 3 {
            self.current = None;
        }
        self.headings.insert(anchor_s.as_str());
        self.anchor = anchor;
        if level == 1 {
            self.title = true;
            self.push_symbol(owned("plan"), string_of(text), loc.clone());
            self.push_fact("plan", one(owned("plan")), loc.clone());
        }
        let ghost loc_v = source@ + "#"@ + anchor_of(lowercase(text@));
        let ghost st1 = PlanState {
            section: if closing { Seq::empty() } else { st.section },
            current: if level <= 3 { None } else { st.current },
            headings: st.headings.insert(anchor_of(lowercase(text@))),
            anchor: anchor_of(lowercase(text@)),
            title: st.title || level == 1,
            symbols: if level == 1 { st.symbols.push(("plan"@, text@, loc_v)) } else { st.symbols },
            facts: if level == 1 { st.facts.push(("plan"@, seq!["plan"@], loc_v)) } else { st.facts },
            ..st
        };
        assert(self@ =~= st1);
        if text.len() >= 2 && text[0] == 'U' && '0' <= text[1] && text[1] <= '9' {
            if level != 3 {
                return Err(line_error_text(index, "units must use level-three headings"));
            }
            let (id, label) = match declaration(text, 'U') {
                Ok(p) => p,
                Err(m) => {
                    let mc = chars_of(m.as_str());
                    return Err(line_error(index, &mc));
                },
            };
            let id_s = string_of(&id);
            if self.ids.contains(id_s.as_str()) {
                let mut msg = owned("duplicate id ");
                push_chars(&mut msg, &id);
                let mc = chars_of(msg.as_str());
                return Err(line_error(index, &mc));
            }
            self.ids.insert(id_s.as_str());
            self.push_symbol(id_s.clone(), string_of(&label), loc.clone());
            self.push_fact("scheduled", one(id_s.clone()), loc.clone());
            self.push_fact("plan_item", two(owned("plan"), id_s.clone()), loc.clone());
            let n = self.units.len();
            let ghost before = self@;
            let u = Unit { id: id_s, source: loc.clone(), requirements: None, dependencies: None };
            let ghost uv = u@;
            self.units.push(u);
            self.current = Some(n);
            assert(self@.units =~= before.units.push(uv));
        }
        if is_structural(text) {
            if self.section.len() > 0 {
                return Err(line_error_text(index, "nested structural sections are unsupported"));
            }
            if self.seen.contains(text_s.as_str()) {
                let mut msg = owned("duplicate ");
                push_chars(&mut msg, text);
                push_str(&mut msg, " section");
                let mc = chars_of(msg.as_str());
                return Err(line_error(index, &mc));
            }
            self.seen.insert(text_s.as_str());
            self.section = chars_of(text_s.as_str());
            self.section_level = level;
            self.listed = Listed::Nothing;
        } else if self.section.len() > 0 {
            return Err(line_error_text(index, "nested headings in structural lists are unsupported"));
        }
        Ok(())
    }
}

} // verus!

verus! {

impl Builder {
    /// Read a unit field line.
    fn field_line(&mut self, index: usize, line: &[char]) -> (r: Result<(), String>)
        requires
            old(self).wf(),
            index < usize::MAX,
        ensures
            final(self).wf(),
            match field_step(old(self)@, index as int, line@) {
                Ok(st) => r is Ok && final(self)@ == st,
                Err(m) => r matches Err(x) && x@ == m,
            },
    {
        let u = match self.current {
            Some(u) => u,
            None => {
                return Err(line_error_text(index, "unit fields outside a unit"));
            },
        };
        if u >= self.units.len() {
            return Ok(());
        }
        let ghost before = self@;
        let mut unit = self.units.remove(u);
        let ghost uv = unit@;
        assert(uv == before.units[u as int]);
        match parse_unit_fields(line, &mut unit) {
            Ok(()) => {},
            Err(m) => {
                let mc = chars_of(m.as_str());
                return Err(line_error(index, &mc));
            },
        }
        let ghost nv = unit@;
        self.units.insert(u, unit);
        assert(self@.units =~= before.units.update(u as int, nv));
        assert(nv == (UnitV { requirements: nv.requirements, dependencies: nv.dependencies, ..uv }));
        Ok(())
    }

    /// Read a line inside a structural section.
    fn item_line(&mut self, source: &str, index: usize, line: &[char]) -> (r: Result<(), String>)
        requires
            old(self).wf(),
            index < usize::MAX,
        ensures
            final(self).wf(),
            match item_step(old(self)@, source@, index as int, line@) {
                Ok(st) => r is Ok && final(self)@ == st,
                Err(m) => r matches Err(x) && x@ == m,
            },
    {
        let ghost st = self@;
        let stars = chars_of("**");
        proof {
            reveal_strlit("**");
            reveal_strlit("- ");
            reveal_strlit("None");
        }
        let n = line.len();
        if n >= 4 && occurs_here(line, &stars, 0) && occurs_here(line, &stars, n - 2) {
            let mut label: Vec<char> = Vec::new();
            let mut k: usize = 2;
            while k < n - 2
                invariant
                    n == line@.len(),
                    n >= 4,
                    2 <= k <= n - 2,
                    label@ == line@.subrange(2, k as int),
                decreases n - 2 - k,
            {
                label.push(line[k]);
                k = k + 1;
                assert(label@ =~= line@.subrange(2, k as int));
            }
            if label.len() > 0 && !crate::text::contains_part(&label, &stars) {
                if looks_like_declaration(&label) {
                    return Err(line_error_text(index, "bold-wrapped structural declarations are unsupported"));
                }
                return Ok(());
            }
        }
        let dash = chars_of("- ");
        if !occurs_here(line, &dash, 0) {
            let mut msg = string_of(&self.section);
            push_str(&mut msg, " accepts only '- ID. Label' or '- None'");
            let mc = chars_of(msg.as_str());
            return Err(line_error(index, &mc));
        }
        let mut item: Vec<char> = Vec::new();
        let mut k: usize = 2;
        while k < n
            invariant
                n == line@.len(),
                2 <= k <= n,
                item@ == line@.subrange(2, k as int),
            decreases n - k,
        {
            item.push(line[k]);
            k = k + 1;
            assert(item@ =~= line@.subrange(2, k as int));
        }
        assert(item@ =~= line@.skip(2));
        if same_chars(&item, &chars_of("None")) {
            if self.listed != Listed::Nothing || same_chars(&self.section, &chars_of("Requirements")) {
                return Err(line_error_text(index, "None must be the sole item of a non-requirement section"));
            }
            self.listed = Listed::NoneMarker;
            return Ok(());
        }
        if self.listed == Listed::NoneMarker {
            return Err(line_error_text(index, "items cannot follow None"));
        }
        let (family, relation) = if same_chars(&self.section, &chars_of("Requirements")) {
            ('R', "requirement")
        } else if same_chars(&self.section, &chars_of("Gates")) {
            ('G', "gate")
        } else if same_chars(&self.section, &chars_of("Deferred")) {
            ('D', "deferred")
        } else {
            ('S', "semantic_input")
        };
        assert(section_family(st.section) == (family, relation@));
        let (id, label) = match declaration(&item, family) {
            Ok(p) => p,
            Err(m) => {
                let mc = chars_of(m.as_str());
                return Err(line_error(index, &mc));
            },
        };
        let id_s = string_of(&id);
        if self.ids.contains(id_s.as_str()) {
            let mut msg = owned("duplicate id ");
            push_chars(&mut msg, &id);
            let mc = chars_of(msg.as_str());
            return Err(line_error(index, &mc));
        }
        let loc = location(source, &self.anchor);
        self.ids.insert(id_s.as_str());
        if family == 'R' {
            self.requirement_ids.insert(id_s.as_str());
        }
        self.push_symbol(id_s.clone(), string_of(&label), loc.clone());
        self.push_fact(relation, one(id_s.clone()), loc.clone());
        if family == 'R' || family == 'G' {
            self.push_fact("plan_item", two(owned("plan"), id_s.clone()), loc.clone());
        }
        self.listed = Listed::Items;
        Ok(())
    }
}

} // verus!

verus! {

impl Builder {
    /// Read body line `index`, `raw` before trimming.
    fn body_line(&mut self, source: &str, index: usize, raw: &str) -> (r: Result<(), String>)
        requires
            old(self).wf(),
            index < usize::MAX,
        ensures
            final(self).wf(),
            match line_step(old(self)@, source@, index as int, raw@) {
                Ok(st) => r is Ok && final(self)@ == st,
                Err(m) => r matches Err(x) && x@ == m,
            },
    {
        let ghost st = self@;
        let t = chars_of(raw);
        let line = trim_range(&t, 0, t.len());
        assert(t@.subrange(0, t@.len() as int) =~= t@);
        if let Some((d, n)) = self.fence {
            let closes = match fence_marker(&line) {
                Some((m, size)) => {
                    let after = trim_range(&line, size, line.len());
                    assert(line@.subrange(size as int, line@.len() as int) =~= line@.skip(size as int));
                    m == d && size >= n && after.len() == 0
                },
                None => false,
            };
            if closes {
                self.fence = None;
            }
            assert(self@ =~= (if closes { PlanState { fence: None, ..st } } else { st }));
            return Ok(());
        }
        if let Some(mark) = fence_marker(&line) {
            self.fence = Some(mark);
            assert(self@ =~= (PlanState { fence: fence_view(Some(mark)), ..st }));
            return Ok(());
        }
        if let Some((level, text)) = heading(&line) {
            return self.heading_line(source, index, level, &text);
        }
        if line.len() == 0 {
            return Ok(());
        }
        if crate::text::contains_part(&line, &chars_of("Requirements:")) || crate::text::contains_part(&line, &chars_of("Dependencies:")) {
            return self.field_line(index, &line);
        }
        if self.section.len() > 0 {
            return self.item_line(source, index, &line);
        }
        if line.len() >= 2 && line[0] == '-' && (line[1] as u32) < 128 {
            let mut rest: Vec<char> = Vec::new();
            let mut k: usize = 2;
            while k < line.len()
                invariant
                    2 <= k <= line@.len(),
                    rest@ == line@.subrange(2, k as int),
                decreases line@.len() - k,
            {
                rest.push(line[k]);
                k = k + 1;
                assert(rest@ =~= line@.subrange(2, k as int));
            }
            assert(rest@ =~= line@.skip(2));
            if looks_like_declaration(&rest) {
                return Err(line_error_text(index, "structural declaration outside its named section"));
            }
        }
        Ok(())
    }
}

/// Read the body lines `lines[start..]`.
pub(crate) fn read_body(lines: &Vec<String>, source: &str, start: usize) -> (r: Result<Builder, String>)
    ensures
        match body_from(texts(lines@), source@, start as int, initial_state()) {
            Ok(st) => r matches Ok(b) && b@ == st && b.wf(),
            Err(m) => r matches Err(x) && x@ == m,
        },
{
    let ghost ls = texts(lines@);
    let mut b = Builder::new();
    let mut i = start;
    if i >= lines.len() {
        return Ok(b);
    }
    while i < lines.len()
        invariant
            ls == texts(lines@),
            start <= i <= lines@.len(),
            b.wf(),
            body_from(ls, source@, start as int, initial_state()) == body_from(ls, source@, i as int, b@),
        decreases lines@.len() - i,
    {
        assert(ls[i as int] == lines@[i as int]@);
        b.body_line(source, i, lines[i].as_str())?;
        i = i + 1;
    }
    Ok(b)
}

/// Find where the body starts after the front matter.
pub(crate) fn front_matter(lines: &Vec<String>) -> (r: Result<usize, String>)
    ensures
        match body_start(texts(lines@)) {
            Ok(k) => r matches Ok(j) && j == k,
            Err(m) => r matches Err(x) && x@ == m,
        },
{
    let ghost ls = texts(lines@);
    let dashes = chars_of("---");
    if lines.len() == 0 || !same_chars(&chars_of(lines[0].as_str()), &dashes) {
        return Err(owned("plan must start with YAML front matter"));
    }
    assert(ls[0] == lines@[0]@);
    let tag = chars_of("artifact_contract:");
    let expected = chars_of("artifact_contract: ce-unified-plan/v1");
    let mut contract = false;
    let mut i: usize = 1;
    while i < lines.len()
        invariant
            ls == texts(lines@),
            1 <= i <= lines@.len(),
            ls.len() > 0 && ls[0] == "---"@,
            dashes@ == "---"@,
            tag@ == "artifact_contract:"@,
            expected@ == "artifact_contract: ce-unified-plan/v1"@,
            front_from(ls, 1, false) == front_from(ls, i as int, contract),
        decreases lines@.len() - i,
    {
        assert(ls[i as int] == lines@[i as int]@);
        let line = chars_of(lines[i].as_str());
        if same_chars(&line, &dashes) {
            if contract {
                return Ok(i + 1);
            }
            return Err(owned("missing ce-unified-plan/v1 front matter"));
        }
        if occurs_here(&line, &tag, 0) {
            let trimmed = trim_range(&line, 0, line.len());
            assert(line@.subrange(0, line@.len() as int) =~= line@);
            if contract || !same_chars(&trimmed, &expected) {
                return Err(owned("expected one artifact_contract: ce-unified-plan/v1"));
            }
            contract = true;
        }
        i = i + 1;
    }
    Err(owned("missing ce-unified-plan/v1 front matter"))
}

} // verus!

verus! {

impl Builder {
    pub(crate) fn units(&self) -> (r: &Vec<Unit>)
        ensures
            r@.map_values(|u: Unit| u@) == self@.units,
    {
        &self.units
    }

    pub(crate) fn requirement_ids(&self) -> (r: &NameSet)
        requires
            self.wf(),
        ensures
            r.wf(),
            r.members() == self@.requirement_ids,
    {
        &self.requirement_ids
    }

    pub(crate) fn seen(&self) -> (r: &NameSet)
        ensures
            r.members() == self@.seen,
    {
        &self.seen
    }

    pub(crate) fn symbols(&self) -> (r: &Vec<(String, String, String)>)
        ensures
            r@.map_values(|s: (String, String, String)| (s.0@, s.1@, s.2@)) == self@.symbols,
    {
        &self.symbols
    }

    pub(crate) fn facts(&self) -> (r: &Vec<(String, Vec<String>, String)>)
        ensures
            r@.map_values(|f: (String, Vec<String>, String)| (f.0@, texts(f.1@), f.2@)) == self@.facts,
    {
        &self.facts
    }

    pub(crate) fn open_fence(&self) -> (r: bool)
        ensures
            r == self@.fence is Some,
    {
        self.fence.is_some()
    }

    pub(crate) fn section(&self) -> (r: &Vec<char>)
        ensures
            r@ == self@.section,
    {
        &self.section
    }

    pub(crate) fn listed(&self) -> (r: Listed)
        ensures
            r == self@.listed,
    {
        self.listed
    }

    pub(crate) fn title(&self) -> (r: bool)
        ensures
            r == self@.title,
    {
        self.title
    }
}

} // verus!
