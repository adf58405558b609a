//! Configuration: what a `main.lua` script asks for, recorded call by call
//! while the script runs, and turned into key bindings, startup steps and
//! named layouts once it has finished.

use vstd::prelude::*;
use crate::commands::{command_named, Command};
use crate::keymap::{chord_named, default_direct_map, default_prefix_map, unicode_lowercase, ctrl_b, KeyChord, KeyMap};
use crate::text::{decimal, push_decimal, push_str, str_eq, string_from_chars, chars_of};

verus! {

/// One step of a startup sequence or named layout.
#[derive(Debug)]
pub enum LayoutAction {
    /// A pane command; a split's ratio (basis points) is the share the
    /// split pane keeps.
    Split { cmd: Command, ratio: Option<u16> },
    /// Type a program followed by a newline into the active pane.
    RunInPane(String),
}

/// Plain-value view of a layout step.
pub enum ActionView {
    Split { cmd: Command, ratio: Option<u16> },
    RunInPane(Seq<char>),
}

impl View for LayoutAction {
    type V = ActionView;

    open spec fn view(&self) -> ActionView {
        match self {
            LayoutAction::Split { cmd, ratio } => ActionView::Split { cmd: *cmd, ratio: *ratio },
            LayoutAction::RunInPane(p) => ActionView::RunInPane(p@),
        }
    }
}

/// Plain-value views of layout steps.
pub open spec fn action_views(v: Seq<LayoutAction>) -> Seq<ActionView> {
    Seq::new(v.len(), |i: int| v[i]@)
}

/// A copy of a layout step.
pub fn copy_action(a: &LayoutAction) -> (r: LayoutAction)
    ensures
        r@ == a@,
{
    match a {
        LayoutAction::Split { cmd, ratio } => LayoutAction::Split { cmd: *cmd, ratio: *ratio },
        LayoutAction::RunInPane(p) => LayoutAction::RunInPane(crate::text::owned(p.as_str())),
    }
}

/// A copy of a list of layout steps.
pub fn copy_actions(v: &Vec<LayoutAction>) -> (r: Vec<LayoutAction>)
    ensures
        action_views(r@) == action_views(v@),
{
    let mut out: Vec<LayoutAction> = Vec::new();
    let mut i: usize = 0;
    while i < v.len()
        invariant
            i <= v@.len(),
            action_views(out@) == action_views(v@).take(i as int),
        decreases v.len() - i,
    {
        let ghost before = out@;
        out.push(copy_action(&v[i]));
        proof {
            assert(action_views(out@) =~= action_views(before).push(v@[i as int]@));
            assert(action_views(v@).take(i as int + 1) =~= action_views(v@).take(i as int).push(v@[i as int]@));
        }
        i = i + 1;
    }
    assert(action_views(v@).take(v@.len() as int) =~= action_views(v@));
    out
}

/// The marker that tells a direct binding from a prefix binding in the
/// recorded bindings.
pub open spec fn direct_marker() -> Seq<char> {
    seq!['_', '_', 'd', 'i', 'r', 'e', 'c', 't', '_', '_']
}

/// Key maps after one recorded binding `(chord, command name)`: a chord
/// with the direct marker binds the rest of it directly, any other chord
/// binds after the prefix key; a chord or command that does not parse is
/// ignored.
pub open spec fn binding_effect(maps: (Map<KeyChord, Command>, Map<KeyChord, Command>), b: (Seq<char>, Seq<char>))
    -> (Map<KeyChord, Command>, Map<KeyChord, Command>) {
    let (chord, name) = b;
    let m = direct_marker();
    if chord.len() >= m.len() && chord.take(m.len() as int) == m {
        match (chord_named(unicode_lowercase(chord.skip(m.len() as int))), command_named(name)) {
            (Some(c), Some(cmd)) => (maps.0, maps.1.insert(c, cmd)),
            _ => maps,
        }
    } else {
        match (chord_named(unicode_lowercase(chord)), command_named(name)) {
            (Some(c), Some(cmd)) => (maps.0.insert(c, cmd), maps.1),
            _ => maps,
        }
    }
}

/// Prefix and direct maps after applying recorded bindings, in order, to
/// the default maps.
pub open spec fn apply_bindings(bs: Seq<(Seq<char>, Seq<char>)>) -> (Map<KeyChord, Command>, Map<KeyChord, Command>)
    decreases bs.len(),
{
    if bs.len() == 0 {
        (default_prefix_map(), default_direct_map())
    } else {
        binding_effect(apply_bindings(bs.drop_last()), bs.last())
    }
}

/// Map view of named layouts kept with distinct numbers.
pub open spec fn layouts_map(v: Seq<(u8, Seq<ActionView>)>) -> Map<u8, Seq<ActionView>> {
    Map::new(
        |k: u8| exists|i: int| 0 <= i < v.len() && v[i].0 == k,
        |k: u8| v[choose|i: int| 0 <= i < v.len() && v[i].0 == k].1,
    )
}

/// The numbers of named layouts are distinct.
pub open spec fn keys_distinct(v: Seq<(u8, Seq<ActionView>)>) -> bool {
    forall|i: int, j: int| 0 <= i < v.len() && 0 <= j < v.len() && i != j ==> (#[trigger] v[i]).0 != (#[trigger] v[j]).0
}

/// Plain-value view of stored named layouts.
pub open spec fn layout_views(v: Seq<(u8, Vec<LayoutAction>)>) -> Seq<(u8, Seq<ActionView>)> {
    Seq::new(v.len(), |i: int| (v[i].0, action_views(v[i].1@)))
}

/// The binding text `prefix` followed by the decimal digits of `n`.
pub open spec fn numbered(prefix: Seq<char>, n: u8) -> Seq<char> {
    prefix + decimal(n as nat)
}

/// Records what a configuration script asks for while it runs.
pub struct ConfigRecorder {
    bindings: Vec<(String, String)>,
    startup: Vec<LayoutAction>,
    recording: Option<Vec<LayoutAction>>,
    layouts: Vec<(u8, Vec<LayoutAction>)>,
}

impl ConfigRecorder {
    /// Recorded bindings `(chord, command name)`, direct ones marked.
    pub closed spec fn bindings_view(&self) -> Seq<(Seq<char>, Seq<char>)> {
        Seq::new(self.bindings@.len(), |i: int| (self.bindings@[i].0@, self.bindings@[i].1@))
    }

    /// Steps recorded for startup.
    pub closed spec fn startup_view(&self) -> Seq<ActionView> {
        action_views(self.startup@)
    }

    /// Steps of the named layout being defined, if one is.
    pub closed spec fn recording_view(&self) -> Option<Seq<ActionView>> {
        match self.recording {
            Some(v) => Some(action_views(v@)),
            None => None,
        }
    }

    /// Named layouts defined so far.
    pub closed spec fn layouts_view(&self) -> Map<u8, Seq<ActionView>> {
        layouts_map(layout_views(self.layouts@))
    }

    /// Named layouts are stored with distinct numbers.
    pub closed spec fn wf(&self) -> bool {
        keys_distinct(layout_views(self.layouts@))
    }

    /// Nothing recorded yet.
    pub fn new() -> (r: ConfigRecorder)
        ensures
            r.wf(),
            r.bindings_view() == Seq::<(Seq<char>, Seq<char>)>::empty(),
            r.startup_view() == Seq::<ActionView>::empty(),
            r.recording_view() is None,
            r.layouts_view() == Map::<u8, Seq<ActionView>>::empty(),
    {
        let r = ConfigRecorder { bindings: Vec::new(), startup: Vec::new(), recording: None, layouts: Vec::new() };
        assert(r.bindings_view() =~= Seq::<(Seq<char>, Seq<char>)>::empty());
        assert(r.startup_view() =~= Seq::<ActionView>::empty());
        assert(r.layouts_view() =~= Map::<u8, Seq<ActionView>>::empty());
        r
    }

    fn push_binding(&mut self, chord: String, command: String)
        ensures
            final(self).bindings_view() == old(self).bindings_view().push((chord@, command@)),
            final(self).startup_view() == old(self).startup_view(),
            final(self).recording_view() == old(self).recording_view(),
            final(self).layouts_view() == old(self).layouts_view(),
            final(self).wf() == old(self).wf(),
    {
        self.bindings.push((chord, command));
        assert(self.bindings_view() =~= old(self).bindings_view().push((chord@, command@)));
    }

    /// `tpane.bind(chord, command)`: a binding after the prefix key.
    pub fn bind(&mut self, chord: &str, command: &str)
        ensures
            final(self).bindings_view() == old(self).bindings_view().push((chord@, command@)),
            final(self).startup_view() == old(self).startup_view(),
            final(self).recording_view() == old(self).recording_view(),
            final(self).layouts_view() == old(self).layouts_view(),
            final(self).wf() == old(self).wf(),
    {
        self.push_binding(crate::text::owned(chord), crate::text::owned(command));
    }

    /// `tpane.bind_direct(chord, command)`: a binding without the prefix
    /// key, recorded with the direct marker in front of the chord.
    pub fn bind_direct(&mut self, chord: &str, command: &str)
        ensures
            final(self).bindings_view() == old(self).bindings_view().push((direct_marker() + chord@, command@)),
            final(self).startup_view() == old(self).startup_view(),
            final(self).recording_view() == old(self).recording_view(),
            final(self).layouts_view() == old(self).layouts_view(),
            final(self).wf() == old(self).wf(),
    {
        let mut marked = crate::text::owned("__direct__");
        proof { reveal_strlit("__direct__"); }
        push_str(&mut marked, chord);
        assert(marked@ =~= direct_marker() + chord@);
        self.push_binding(marked, crate::text::owned(command));
    }

    fn record(&mut self, action: LayoutAction)
        ensures
            final(self).bindings_view() == old(self).bindings_view(),
            match old(self).recording_view() {
                Some(steps) => final(self).recording_view() == Some(steps.push(action@))
                    && final(self).startup_view() == old(self).startup_view(),
                None => final(self).recording_view() is None
                    && final(self).startup_view() == old(self).startup_view().push(action@),
            },
            final(self).layouts_view() == old(self).layouts_view(),
            final(self).wf() == old(self).wf(),
    {
        let ghost a = action@;
        match &mut self.recording {
            Some(steps) => {
                let ghost before = steps@;
                steps.push(action);
                proof { assert(action_views(steps@) =~= action_views(before).push(a)); }
            },
            None => {
                let ghost before = self.startup@;
                self.startup.push(action);
                proof { assert(action_views(self.startup@) =~= action_views(before).push(a)); }
            },
        }
    }

    /// `tpane.run(program)`: type `program` into the active pane, recorded
    /// into the layout being defined, or else into the startup steps.
    pub fn run(&mut self, program: &str)
        ensures
            final(self).bindings_view() == old(self).bindings_view(),
            match old(self).recording_view() {
                Some(steps) => final(self).recording_view() == Some(steps.push(ActionView::RunInPane(program@)))
                    && final(self).startup_view() == old(self).startup_view(),
                None => final(self).recording_view() is None
                    && final(self).startup_view() == old(self).startup_view().push(ActionView::RunInPane(program@)),
            },
            final(self).layouts_view() == old(self).layouts_view(),
            final(self).wf() == old(self).wf(),
    {
        self.record(LayoutAction::RunInPane(crate::text::owned(program)));
    }

    /// `tpane.<name>(ratio)` for a pane command such as `split_right`:
    /// recorded like [`Self::run`]; an unknown name records nothing.
    pub fn command(&mut self, name: &str, ratio: Option<u16>)
        ensures
            final(self).bindings_view() == old(self).bindings_view(),
            match command_named(name@) {
                Some(cmd) => match old(self).recording_view() {
                    Some(steps) => final(self).recording_view() == Some(steps.push(ActionView::Split { cmd, ratio }))
                        && final(self).startup_view() == old(self).startup_view(),
                    None => final(self).recording_view() is None
                        && final(self).startup_view() == old(self).startup_view().push(ActionView::Split { cmd, ratio }),
                },
                None => final(self).recording_view() == old(self).recording_view()
                    && final(self).startup_view() == old(self).startup_view(),
            },
            final(self).layouts_view() == old(self).layouts_view(),
            final(self).wf() == old(self).wf(),
    {
        match Command::from_name(name) {
            Some(cmd) => self.record(LayoutAction::Split { cmd, ratio }),
            None => {},
        }
    }

    /// Start of `tpane.define_layout(n, f)`: steps now go to a new layout.
    pub fn begin_layout(&mut self)
        ensures
            final(self).bindings_view() == old(self).bindings_view(),
            final(self).startup_view() == old(self).startup_view(),
            final(self).recording_view() == Some(Seq::<ActionView>::empty()),
            final(self).layouts_view() == old(self).layouts_view(),
            final(self).wf() == old(self).wf(),
    {
        let v: Vec<LayoutAction> = Vec::new();
        assert(action_views(v@) =~= Seq::<ActionView>::empty());
        self.recording = Some(v);
    }

    /// End of `tpane.define_layout(n, f)`: the recorded steps become layout
    /// `n` (replacing an earlier one), and Ctrl+`n` is bound to the command
    /// name `load_layout_<n>`.
    pub fn end_layout(&mut self, n: u8)
        requires
            old(self).wf(),
        ensures
            final(self).wf(),
            final(self).bindings_view() == old(self).bindings_view().push((
                numbered(seq!['c', 't', 'r', 'l', '+'], n),
                numbered(seq!['l', 'o', 'a', 'd', '_', 'l', 'a', 'y', 'o', 'u', 't', '_'], n),
            )),
            final(self).startup_view() == old(self).startup_view(),
            final(self).recording_view() is None,
            final(self).layouts_view() == match old(self).recording_view() {
                Some(steps) => old(self).layouts_view().insert(n, steps),
                None => old(self).layouts_view(),
            },
    {
        let taken = self.recording.take();
        match taken {
            Some(steps) => self.store_layout(n, steps),
            None => {},
        }
        let mut chord = crate::text::owned("ctrl+");
        let mut name = crate::text::owned("load_layout_");
        proof {
            reveal_strlit("ctrl+");
            reveal_strlit("load_layout_");
            assert("ctrl+"@ =~= seq!['c', 't', 'r', 'l', '+']);
            assert("load_layout_"@ =~= seq!['l', 'o', 'a', 'd', '_', 'l', 'a', 'y', 'o', 'u', 't', '_']);
        }
        push_decimal(&mut chord, n as u32);
        push_decimal(&mut name, n as u32);
        self.push_binding(chord, name);
    }

    fn store_layout(&mut self, n: u8, steps: Vec<LayoutAction>)
        requires
            old(self).wf(),
        ensures
            final(self).wf(),
            final(self).bindings_view() == old(self).bindings_view(),
            final(self).startup_view() == old(self).startup_view(),
            final(self).recording_view() == old(self).recording_view(),
            final(self).layouts_view() == old(self).layouts_view().insert(n, action_views(steps@)),
    {
        let ghost lv = layout_views(self.layouts@);
        let ghost sv = action_views(steps@);
        let mut i: usize = 0;
        while i < self.layouts.len()
            invariant
                i <= self.layouts@.len(),
                lv == layout_views(self.layouts@),
                sv == action_views(steps@),
                keys_distinct(lv),
                self.layouts@ == old(self).layouts@,
                self.bindings@ == old(self).bindings@,
                self.startup@ == old(self).startup@,
                self.recording == old(self).recording,
                forall|j: int| 0 <= j < i ==> (#[trigger] self.layouts@[j]).0 != n,
            decreases self.layouts.len() - i,
        {
            if self.layouts[i].0 == n {
                self.layouts.set(i, (n, steps));
                proof {
                    let nv = layout_views(self.layouts@);
                    assert(nv =~= lv.update(i as int, (n, sv))) by {
                        assert forall|j: int| 0 <= j < nv.len() implies nv[j] == lv.update(i as int, (n, sv))[j] by {
                            if j != i { assert(self.layouts@[j] == old(self).layouts@[j]); }
                        }
                    }
                    assert(lv[i as int].0 == n);
                    assert(keys_distinct(nv)) by {
                        assert forall|a: int, b: int| 0 <= a < nv.len() && 0 <= b < nv.len() && a != b
                            implies (#[trigger] nv[a]).0 != (#[trigger] nv[b]).0 by {
                            assert(nv[a].0 == lv[a].0 && nv[b].0 == lv[b].0);
                        }
                    }
                    assert(layouts_map(nv) =~= layouts_map(lv).insert(n, sv)) by {
                        assert forall|k: u8| #[trigger] layouts_map(nv).contains_key(k)
                            <==> layouts_map(lv).insert(n, sv).contains_key(k) by {
                            if layouts_map(lv).contains_key(k) {
                                let j = choose|j: int| 0 <= j < lv.len() && lv[j].0 == k;
                                assert(nv[j].0 == k);
                            }
                            if layouts_map(nv).contains_key(k) {
                                let j = choose|j: int| 0 <= j < nv.len() && nv[j].0 == k;
                                assert(lv[j].0 == k);
                            }
                            assert(nv[i as int].0 == n);
                            assert(lv[i as int].0 == n);
                        }
                        assert forall|k: u8| #[trigger] layouts_map(nv).contains_key(k)
                            implies layouts_map(nv)[k] == layouts_map(lv).insert(n, sv)[k] by {
                            let j = choose|j: int| 0 <= j < nv.len() && nv[j].0 == k;
                            if k == n {
                                assert(nv[i as int].0 == n);
                                assert(j == i);
                            } else {
                                assert(lv[j].0 == k);
                                let j2 = choose|j2: int| 0 <= j2 < lv.len() && lv[j2].0 == k;
                                assert(j2 == j);
                                assert(nv[j] == lv[j]);
                            }
                        }
                    }
                }
                return;
            }
            i = i + 1;
        }
        self.layouts.push((n, steps));
        proof {
            let nv = layout_views(self.layouts@);
            assert(nv =~= lv.push((n, sv)));
            assert(keys_distinct(nv)) by {
                assert forall|a: int, b: int| 0 <= a < nv.len() && 0 <= b < nv.len() && a != b
                    implies (#[trigger] nv[a]).0 != (#[trigger] nv[b]).0 by {
                    if a < lv.len() && b < lv.len() {
                        assert(nv[a].0 == lv[a].0 && nv[b].0 == lv[b].0);
                    } else if a == lv.len() {
                        assert(nv[b].0 == self.layouts@[b].0);
                    } else {
                        assert(nv[a].0 == self.layouts@[a].0);
                    }
                }
            }
            assert(layouts_map(nv) =~= layouts_map(lv).insert(n, sv)) by {
                assert forall|k: u8| #[trigger] layouts_map(nv).contains_key(k)
                    <==> layouts_map(lv).insert(n, sv).contains_key(k) by {
                    if layouts_map(lv).contains_key(k) {
                        let j = choose|j: int| 0 <= j < lv.len() && lv[j].0 == k;
                        assert(nv[j].0 == k);
                    }
                    if layouts_map(nv).contains_key(k) && k != n {
                        let j = choose|j: int| 0 <= j < nv.len() && nv[j].0 == k;
                        assert(j < lv.len());
                        assert(lv[j].0 == k);
                    }
                    assert(nv[lv.len() as int].0 == n);
                }
                assert forall|k: u8| #[trigger] layouts_map(nv).contains_key(k)
                    implies layouts_map(nv)[k] == layouts_map(lv).insert(n, sv)[k] by {
                    let j = choose|j: int| 0 <= j < nv.len() && nv[j].0 == k;
                    if k == n {
                        assert(nv[lv.len() as int].0 == n);
                        if j < lv.len() {
                            assert(self.layouts@[j].0 == n);
                        }
                        assert(j == lv.len());
                    } else {
                        assert(j < lv.len());
                        assert(lv[j].0 == k);
                        let j2 = choose|j2: int| 0 <= j2 < lv.len() && lv[j2].0 == k;
                        assert(nv[j2].0 == k);
                        assert(j2 == j);
                    }
                }
            }
        }
    }

    /// Builds the configuration once the script has run: the recorded
    /// bindings applied in order over the default key map, the startup
    /// steps, the named layouts, and whether the cheatsheet is shown.
    pub fn finish(self, show_cheatsheet: bool) -> (r: LuaConfig)
        requires
            self.wf(),
        ensures
            r.keymap.wf(),
            r.keymap.prefix() == ctrl_b(),
            (r.keymap.prefix_map(), r.keymap.direct_map()) == apply_bindings(self.bindings_view()),
            action_views(r.startup_commands@) == self.startup_view(),
            keys_distinct(layout_views(r.named_layouts@)),
            layouts_map(layout_views(r.named_layouts@)) == self.layouts_view(),
            r.show_cheatsheet == show_cheatsheet,
    {
        let mut keymap = KeyMap::default();
        let ghost bv = self.bindings_view();
        let mut i: usize = 0;
        while i < self.bindings.len()
            invariant
                i <= self.bindings@.len(),
                bv == self.bindings_view(),
                keymap.wf(),
                keymap.prefix() == ctrl_b(),
                (keymap.prefix_map(), keymap.direct_map()) == apply_bindings(bv.take(i as int)),
            decreases self.bindings.len() - i,
        {
            let (chord, name) = &self.bindings[i];
            proof {
                let t = bv.take(i as int + 1);
                assert(t.drop_last() =~= bv.take(i as int));
                assert(t.last() == (chord@, name@));
            }
            apply_binding(&mut keymap, chord.as_str(), name.as_str());
            i = i + 1;
        }
        assert(bv.take(bv.len() as int) =~= bv);
        LuaConfig {
            keymap,
            startup_commands: self.startup,
            named_layouts: self.layouts,
            show_cheatsheet,
        }
    }
}

/// Applies one recorded binding to a key map.
fn apply_binding(keymap: &mut KeyMap, chord: &str, name: &str)
    requires
        old(keymap).wf(),
    ensures
        final(keymap).wf(),
        final(keymap).prefix() == old(keymap).prefix(),
        (final(keymap).prefix_map(), final(keymap).direct_map())
            == binding_effect((old(keymap).prefix_map(), old(keymap).direct_map()), (chord@, name@)),
{
    let cs = chars_of(chord);
    let marker = "__direct__";
    proof { reveal_strlit("__direct__"); }
    let ml: usize = 10;
    let mut marked = cs.len() >= ml;
    let mut k: usize = 0;
    while marked && k < ml
        invariant
            cs@ == chord@,
            marker@ == direct_marker(),
            ml == 10,
            k <= ml,
            marked ==> cs@.len() >= ml,
            marked == (cs@.len() >= ml && forall|j: int| 0 <= j < k ==> cs@[j] == direct_marker()[j]),
        decreases ml - k,
    {
        if cs[k] != marker.get_char(k) {
            marked = false;
        }
        k = k + 1;
    }
    proof {
        if marked {
            assert(cs@.take(10) =~= direct_marker());
        } else if cs@.len() >= 10 {
            assert(cs@.take(10) != direct_marker()) by {
                let j = choose|j: int| 0 <= j < k && cs@[j] != direct_marker()[j];
                assert(cs@.take(10)[j] != direct_marker()[j]);
            }
        }
    }
    if marked {
        let mut rest: Vec<char> = Vec::new();
        let mut j: usize = ml;
        while j < cs.len()
            invariant
                ml == 10,
                ml <= j <= cs@.len(),
                rest@ == cs@.subrange(10, j as int),
            decreases cs.len() - j,
        {
            rest.push(cs[j]);
            j = j + 1;
            assert(rest@ =~= cs@.subrange(10, j as int));
        }
        assert(rest@ =~= chord@.skip(10));
        let rest_s = string_from_chars(&rest);
        match KeyChord::parse(rest_s.as_str()) {
            Some(c) => match Command::from_name(name) {
                Some(cmd) => keymap.bind_direct(c, cmd),
                None => {},
            },
            None => {},
        }
    } else {
        match KeyChord::parse(chord) {
            Some(c) => match Command::from_name(name) {
                Some(cmd) => keymap.bind(c, cmd),
                None => {},
            },
            None => {},
        }
    }
}


/// The steps of layout `n` among `layouts`, whose numbers are distinct.
pub fn find_layout(layouts: &Vec<(u8, Vec<LayoutAction>)>, n: u8) -> (r: Option<&Vec<LayoutAction>>)
    requires
        keys_distinct(layout_views(layouts@)),
    ensures
        match r {
            Some(v) => layouts_map(layout_views(layouts@)).contains_key(n)
                && action_views(v@) == layouts_map(layout_views(layouts@))[n],
            None => !layouts_map(layout_views(layouts@)).contains_key(n),
        },
{
    let ghost lv = layout_views(layouts@);
    let mut i: usize = 0;
    while i < layouts.len()
        invariant
            i <= layouts@.len(),
            lv == layout_views(layouts@),
            keys_distinct(lv),
            forall|j: int| 0 <= j < i ==> (#[trigger] layouts@[j]).0 != n,
        decreases layouts.len() - i,
    {
        if layouts[i].0 == n {
            proof {
                assert(lv[i as int].0 == n);
                assert(layouts_map(lv).contains_key(n));
                let c = choose|j: int| 0 <= j < lv.len() && lv[j].0 == n;
                assert(lv[c].0 == n);
                assert(c == i);
            }
            return Some(&layouts[i].1);
        }
        i = i + 1;
    }
    proof {
        assert forall|j: int| 0 <= j < lv.len() implies lv[j].0 != n by {
            assert(lv[j].0 == layouts@[j].0);
        }
    }
    None
}

/// The configuration a script produced.
pub struct LuaConfig {
    /// Effective key bindings.
    pub keymap: KeyMap,
    /// Steps to run at startup.
    pub startup_commands: Vec<LayoutAction>,
    /// Named layouts by number, each number once.
    pub named_layouts: Vec<(u8, Vec<LayoutAction>)>,
    /// Show the key binding cheatsheet in prefix mode.
    pub show_cheatsheet: bool,
}

impl LuaConfig {
    /// The steps of named layout `n`.
    pub fn named_layout(&self, n: u8) -> (r: Option<&Vec<LayoutAction>>)
        requires
            keys_distinct(layout_views(self.named_layouts@)),
        ensures
            match r {
                Some(v) => layouts_map(layout_views(self.named_layouts@)).contains_key(n)
                    && action_views(v@) == layouts_map(layout_views(self.named_layouts@))[n],
                None => !layouts_map(layout_views(self.named_layouts@)).contains_key(n),
            },
    {
        find_layout(&self.named_layouts, n)
    }

    /// The steps to run at startup: named layout `layout` when one was
    /// asked for and defined, otherwise the startup steps.
    pub fn startup_steps(&self, layout: Option<u8>) -> (r: &Vec<LayoutAction>)
        requires
            keys_distinct(layout_views(self.named_layouts@)),
        ensures
            action_views(r@) == match layout {
                Some(n) => if layouts_map(layout_views(self.named_layouts@)).contains_key(n) {
                    layouts_map(layout_views(self.named_layouts@))[n]
                } else {
                    action_views(self.startup_commands@)
                },
                None => action_views(self.startup_commands@),
            },
    {
        match layout {
            Some(n) => match self.named_layout(n) {
                Some(v) => v,
                None => &self.startup_commands,
            },
            None => &self.startup_commands,
        }
    }
}

/// The layout a command-line argument asks for: `-1` to `-9`.
pub open spec fn layout_flag(arg: Seq<char>) -> Option<u8> {
    if arg.len() == 2 && arg[0] == '-' && '1' <= arg[1] <= '9' {
        Some(((arg[1] as u32) - ('0' as u32)) as u8)
    } else {
        None
    }
}

/// Reads a layout number from a command-line argument.
pub fn parse_layout_flag(arg: &str) -> (r: Option<u8>)
    ensures
        r == layout_flag(arg@),
{
    if arg.unicode_len() != 2 {
        return None;
    }
    let c0 = arg.get_char(0);
    let c1 = arg.get_char(1);
    if c0 == '-' && '1' <= c1 && c1 <= '9' {
        Some(((c1 as u32) - ('0' as u32)) as u8)
    } else {
        None
    }
}

/// Of two bindings for one chord, the later one holds: binding `chord` to
/// `first` and then to `second` leaves it bound to `second`.
pub proof fn law_later_binding_wins(bs: Seq<(Seq<char>, Seq<char>)>, chord: Seq<char>, first: Seq<char>,
    second: Seq<char>)
    requires
        !(chord.len() >= direct_marker().len() && chord.take(direct_marker().len() as int) == direct_marker()),
        chord_named(unicode_lowercase(chord)) is Some,
        command_named(second) is Some,
    ensures
        apply_bindings(bs.push((chord, first)).push((chord, second))).0[chord_named(unicode_lowercase(chord))->0]
            == command_named(second)->0,
        apply_bindings(bs.push((chord, first)).push((chord, second))).0.contains_key(
            chord_named(unicode_lowercase(chord))->0),
{
    let b2 = bs.push((chord, first)).push((chord, second));
    assert(b2.drop_last() =~= bs.push((chord, first)));
    assert(b2.last() == (chord, second));
}

} // verus!
