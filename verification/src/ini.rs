//! The line format of `lan.ini`: sections in brackets, `key = value` lines, comments after a
//! semicolon.
use crate::text;
use vstd::prelude::*;

verus! {

/// One setting: its section and key in lower case, and its value.
#[derive(Debug)]
pub struct Entry {
    pub section: Vec<char>,
    pub key: Vec<char>,
    pub value: Vec<char>,
}

#[verifier::ext_equal]
pub struct EntryView {
    pub section: Seq<char>,
    pub key: Seq<char>,
    pub value: Seq<char>,
}

impl View for Entry {
    type V = EntryView;

    open spec fn view(&self) -> EntryView {
        EntryView { section: self.section@, key: self.key@, value: self.value@ }
    }
}

/// A line without its comment and the white space around it.
pub open spec fn content(line: Seq<char>) -> Seq<char> {
    text::trimmed(line.take(text::find(line, ';')))
}

/// The line opens a section.
pub open spec fn is_header(l: Seq<char>) -> bool {
    l.len() > 0 && l[0] == '[' && l.last() == ']'
}

/// The section that is open after a line.
pub open spec fn section_after(section: Seq<char>, line: Seq<char>) -> Seq<char> {
    let l = content(line);
    if is_header(l) {
        text::lowered(text::trimmed(l.subrange(1, l.len() - 1)))
    } else {
        section
    }
}

/// The setting on a line, if there is one.
pub open spec fn setting_on(section: Seq<char>, line: Seq<char>) -> Seq<EntryView> {
    let l = content(line);
    let k = text::find(l, '=');
    if !is_header(l) && k < l.len() {
        seq![
            EntryView {
                section,
                key: text::lowered(text::trimmed(l.take(k))),
                value: text::trimmed(l.skip(k + 1)),
            },
        ]
    } else {
        Seq::empty()
    }
}

/// The settings of a text that continues in a given section.
pub open spec fn settings_from(section: Seq<char>, s: Seq<char>) -> Seq<EntryView>
    decreases s.len(),
{
    let k = text::find(s, '\n');
    if 0 <= k < s.len() {
        let line = s.take(k);
        setting_on(section, line) + settings_from(section_after(section, line), s.skip(k + 1))
    } else {
        setting_on(section, s)
    }
}

/// The settings of a text, in their order.
pub open spec fn settings(s: Seq<char>) -> Seq<EntryView> {
    settings_from(Seq::empty(), s)
}

/// The models of a list of settings.
pub open spec fn views(v: Seq<Entry>) -> Seq<EntryView> {
    v.map_values(|e: Entry| e@)
}

/// A copy of some characters.
fn owned(s: &[char]) -> (r: Vec<char>)
    ensures
        r@ == s@,
{
    let mut r: Vec<char> = Vec::new();
    r.extend_from_slice(s);
    assert(r@ =~= s@);
    r
}

/// Takes in one line.
fn read_line(out: &mut Vec<Entry>, section: &mut Vec<char>, line: &[char])
    ensures
        views(final(out)@) == views(old(out)@) + setting_on(old(section)@, line@),
        final(section)@ == section_after(old(section)@, line@),
{
    let ghost before = views(out@);
    let l = text::trim(text::head(line, text::find_char(line, ';')));
    if l.len() > 0 && l[0] == '[' && l[l.len() - 1] == ']' {
        *section = text::to_lowered(text::trim(text::part(l, 1, l.len() - 1)));
        assert(views(out@) =~= before + setting_on(old(section)@, line@));
        return;
    }
    let k: usize = text::find_char(l, '=');
    if k < l.len() {
        let e = Entry {
            section: owned(section.as_slice()),
            key: text::to_lowered(text::trim(text::head(l, k))),
            value: owned(text::trim(text::tail(l, k + 1))),
        };
        out.push(e);
        assert(views(out@) =~= before.push(e@));
    }
    assert(views(out@) =~= before + setting_on(old(section)@, line@));
}

/// Reads the settings of a text.
pub fn read_settings(s: &str) -> (r: Vec<Entry>)
    ensures
        views(r@) == settings(s@),
{
    let all = text::chars_of(s);
    let mut out: Vec<Entry> = Vec::new();
    let mut section: Vec<char> = Vec::new();
    let n: usize = all.len();
    let mut from: usize = 0;
    let mut more = true;
    assert(section@ =~= Seq::<char>::empty());
    assert(all@.skip(0) =~= s@);
    assert(views(out@) + settings_from(section@, all@.skip(0)) =~= settings(s@));
    while more
        invariant
            from <= n,
            n == all@.len(),
            all@ == s@,
            more ==> views(out@) + settings_from(section@, all@.skip(from as int)) == settings(s@),
            !more ==> views(out@) == settings(s@),
        decreases n - from + (if more { 1int } else { 0 }),
    {
        let ghost before = views(out@);
        let ghost open = section@;
        let rest = text::tail(all.as_slice(), from);
        let k: usize = text::find_char(rest, '\n');
        read_line(&mut out, &mut section, text::head(rest, k));
        if k < rest.len() {
            assert(rest@.skip(k + 1) =~= all@.skip(from + k + 1));
            assert(views(out@) + settings_from(section@, rest@.skip(k + 1)) =~= before
                + settings_from(open, rest@));
            from = from + k + 1;
        } else {
            assert(rest@.take(k as int) =~= rest@);
            more = false;
        }
    }
    out
}

}
