//! An editing session on a word finder: which pane has the focus, whether
//! keys are typed into the edit line, and what each key does. The session
//! draws nothing and reads nothing: it is told what the lists on screen have
//! selected, and it answers with what the front end is to do next.

use crate::arrange::is_sorting_of;
use crate::error::FinderError;
use crate::load::words_of;
use crate::ord::{order_at, WordOrder};
use crate::rule::{initial_rule, Rule};
use crate::text::{pop_char, push_char};
use crate::words::WordFinder;
use vstd::prelude::*;

verus! {

/// The panes that can have the focus.
#[derive(Debug, Clone, Copy, PartialEq, Eq, Structural)]
pub enum SelectableArea {
    /// The chain of predicates, with the entry that adds one below it.
    Predicates,
    /// The words found.
    Words,
    /// The menu of predicate kinds.
    NewPredicate,
    /// The list of orders.
    Sorting,
    /// The path of the word list.
    File,
}

/// Whether keys are commands or text.
#[derive(Debug, Clone, Copy, PartialEq, Eq, Structural)]
pub enum InputMode {
    /// Keys are commands.
    Normal,
    /// Keys are typed into the edit line.
    Insert,
}

/// A key press, as far as the session tells keys apart.
#[derive(Debug, Clone, Copy, PartialEq, Eq, Structural)]
pub enum Key {
    /// A character key.
    Char(char),
    /// The left arrow.
    Left,
    /// The right arrow.
    Right,
    /// The down arrow.
    Down,
    /// The up arrow.
    Up,
    /// The enter key.
    Enter,
    /// The delete key.
    Delete,
    /// The backspace key.
    Backspace,
    /// Any other key.
    Other,
}

/// What each list on screen has selected, if anything.
#[derive(Debug, Clone, Copy, PartialEq, Eq, Structural)]
pub struct Selection {
    /// In the list of orders.
    pub sort: Option<usize>,
    /// In the chain of predicates; the position after the last predicate is
    /// the entry that adds one.
    pub pred: Option<usize>,
    /// In the menu of predicate kinds.
    pub new_pred: Option<usize>,
}

/// What the front end is to do once a key has been handled.
#[derive(Debug, Clone, Copy, PartialEq, Eq, Structural)]
pub enum Effect {
    /// Nothing beyond drawing the session again.
    Nothing,
    /// Move the selection of this pane's list one entry down.
    SelectNext(SelectableArea),
    /// Move the selection of this pane's list one entry up.
    SelectPrevious(SelectableArea),
    /// Select the first entry of this pane's list.
    SelectFirst(SelectableArea),
    /// Read the file whose path is in the edit line, and hand what was read
    /// to `file_read`.
    ReadFile,
    /// Tell the user that the request failed; the session is unchanged
    /// but for what the contract of the handler says.
    Report(FinderError),
}

/// A session: a word finder and the state of its editing.
#[derive(Debug)]
pub struct Session {
    /// Set once the user has asked to leave.
    pub exit: bool,
    /// The word finder that the session edits.
    pub finder: WordFinder,
    /// The pane that has the focus.
    pub focus_pane: SelectableArea,
    /// Whether keys are commands or text.
    pub input_mode: InputMode,
    /// The edit line.
    pub insert_buf: String,
}

/// What a session holds, as plain values.
pub struct SessionView {
    /// Whether the user has asked to leave.
    pub exit: bool,
    /// The pane that has the focus.
    pub focus: SelectableArea,
    /// Whether keys are commands or text.
    pub mode: InputMode,
    /// The edit line.
    pub buf: Seq<char>,
    /// The path of the word list.
    pub path: Seq<char>,
    /// The word list.
    pub words: Seq<Seq<char>>,
    /// The chain of predicates.
    pub rules: Seq<Rule>,
    /// The chosen order.
    pub order: WordOrder,
}

impl SelectableArea {
    /// The pane that the right arrow leads to: from the words to the orders,
    /// from the orders to the predicates, and nowhere from the others.
    pub open spec fn right_of(self) -> SelectableArea {
        match self {
            SelectableArea::Words => SelectableArea::Sorting,
            SelectableArea::Sorting => SelectableArea::Predicates,
            other => other,
        }
    }

    /// The pane that the left arrow leads to: from the predicates to the
    /// orders, from the orders to the words, and nowhere from the others.
    pub open spec fn left_of(self) -> SelectableArea {
        match self {
            SelectableArea::Predicates => SelectableArea::Sorting,
            SelectableArea::Sorting => SelectableArea::Words,
            other => other,
        }
    }

    /// Whether the pane shows a list in which the arrows move a selection.
    pub open spec fn has_list(self) -> bool {
        self != SelectableArea::File
    }
}

/// The edit line after `key` was typed into it: a character is appended,
/// backspace takes the last character off, any other key leaves it.
pub open spec fn typed(buf: Seq<char>, key: Key) -> Seq<char> {
    match key {
        Key::Char(c) => buf.push(c),
        Key::Backspace => if buf.len() > 0 {
            buf.drop_last()
        } else {
            buf
        },
        _ => buf,
    }
}

/// What the enter key does in normal mode.
///
/// On the predicates: the entry after the last predicate opens the menu of
/// kinds; a predicate is taken into the edit line. On the menu of kinds: a
/// predicate of the selected kind is appended and taken into the edit line.
/// On the orders: the selected order is chosen and the word list sorted by
/// it. On the path: the front end is asked to read the file. A pane whose
/// list has nothing selected does nothing.
pub open spec fn entered(
    pre: SessionView,
    selected: Selection,
    post: SessionView,
    effect: Effect,
) -> bool {
    match pre.focus {
        SelectableArea::Predicates => match selected.pred {
            None => post == pre && effect == Effect::Nothing,
            Some(at) => if at == pre.rules.len() {
                post == (SessionView { focus: SelectableArea::NewPredicate, ..pre }) && effect
                    == Effect::SelectFirst(SelectableArea::NewPredicate)
            } else if at < pre.rules.len() {
                post == (SessionView {
                    buf: pre.rules[at as int].text(),
                    mode: InputMode::Insert,
                    ..pre
                }) && effect == Effect::Nothing
            } else {
                post == pre && effect == Effect::Report(FinderError::IndexOutOfRange)
            },
        },
        SelectableArea::NewPredicate => match selected.new_pred {
            None => post == pre && effect == Effect::Nothing,
            Some(kind) => post == (SessionView {
                rules: match initial_rule(kind as nat) {
                    Some(rule) => pre.rules.push(rule),
                    None => pre.rules,
                },
                focus: SelectableArea::Predicates,
                buf: Seq::empty(),
                mode: InputMode::Insert,
                ..pre
            }) && effect == Effect::Nothing,
        },
        SelectableArea::Sorting => match selected.sort {
            None => post == pre && effect == Effect::Nothing,
            Some(index) => {
                let order = match order_at(index as nat) {
                    Some(order) => order,
                    None => pre.order,
                };
                if order.supported() {
                    &&& is_sorting_of(order, pre.words, post.words)
                    &&& post == (SessionView { order: order, words: post.words, ..pre })
                    &&& effect == Effect::Nothing
                } else {
                    &&& post == (SessionView { order: order, ..pre })
                    &&& effect == Effect::Report(FinderError::UnsupportedOrder)
                }
            },
        },
        SelectableArea::File => post == pre && effect == Effect::ReadFile,
        SelectableArea::Words => post == pre && effect == Effect::Nothing,
    }
}

/// What the delete key does in normal mode: on the predicates it takes the
/// selected predicate out of the chain, and reports a selection that is no
/// predicate; elsewhere, and with nothing selected, it does nothing.
pub open spec fn deleted(
    pre: SessionView,
    selected: Selection,
    post: SessionView,
    effect: Effect,
) -> bool {
    if pre.focus == SelectableArea::Predicates {
        match selected.pred {
            None => post == pre && effect == Effect::Nothing,
            Some(at) => if at < pre.rules.len() {
                post == (SessionView { rules: pre.rules.remove(at as int), ..pre }) && effect
                    == Effect::Nothing
            } else {
                post == pre && effect == Effect::Report(FinderError::IndexOutOfRange)
            },
        }
    } else {
        post == pre && effect == Effect::Nothing
    }
}

/// What a key does in insert mode. The key is typed into the edit line, and
/// enter goes back to normal mode. While the predicates have the focus the
/// selected predicate then gets the edit line as its parameter, and the list
/// of words goes back to its first entry; a selection that is no predicate
/// is reported, and with nothing selected no predicate changes.
pub open spec fn inserted(
    pre: SessionView,
    key: Key,
    selected: Selection,
    post: SessionView,
    effect: Effect,
) -> bool {
    let buf = typed(pre.buf, key);
    let mode = if key == Key::Enter {
        InputMode::Normal
    } else {
        pre.mode
    };
    let edited = SessionView { buf: buf, mode: mode, ..pre };
    if pre.focus == SelectableArea::Predicates {
        match selected.pred {
            None => post == edited && effect == Effect::Nothing,
            Some(at) => if at < pre.rules.len() {
                post == (SessionView {
                    rules: pre.rules.update(at as int, pre.rules[at as int].with_text(buf)),
                    ..edited
                }) && effect == Effect::SelectFirst(SelectableArea::Words)
            } else {
                post == edited && effect == Effect::Report(FinderError::IndexOutOfRange)
            },
        }
    } else {
        post == edited && effect == Effect::Nothing
    }
}

/// What a key does as a command: `q` asks to leave, `f` takes the path of
/// the word list into the edit line, the arrows move the focus or, in normal
/// mode, a selection, enter and delete act on the pane that has the focus,
/// and every other key does nothing.
pub open spec fn commanded(
    pre: SessionView,
    key: Key,
    selected: Selection,
    post: SessionView,
    effect: Effect,
) -> bool {
    match key {
        Key::Char(c) => if c == 'q' {
            post == (SessionView { exit: true, ..pre }) && effect == Effect::Nothing
        } else if c == 'f' {
            post == (SessionView {
                focus: SelectableArea::File,
                buf: pre.path,
                mode: InputMode::Insert,
                ..pre
            }) && effect == Effect::Nothing
        } else {
            post == pre && effect == Effect::Nothing
        },
        Key::Left => post == (SessionView { focus: pre.focus.left_of(), ..pre }) && effect
            == Effect::Nothing,
        Key::Right => post == (SessionView { focus: pre.focus.right_of(), ..pre }) && effect
            == Effect::Nothing,
        Key::Down => post == pre && effect == if pre.mode == InputMode::Normal
            && pre.focus.has_list() {
            Effect::SelectNext(pre.focus)
        } else {
            Effect::Nothing
        },
        Key::Up => post == pre && effect == if pre.mode == InputMode::Normal
            && pre.focus.has_list() {
            Effect::SelectPrevious(pre.focus)
        } else {
            Effect::Nothing
        },
        Key::Enter => entered(pre, selected, post, effect),
        Key::Delete => deleted(pre, selected, post, effect),
        _ => post == pre && effect == Effect::Nothing,
    }
}

/// What a key does: in insert mode it is text, in normal mode a command.
pub open spec fn handled(
    pre: SessionView,
    key: Key,
    selected: Selection,
    post: SessionView,
    effect: Effect,
) -> bool {
    match pre.mode {
        InputMode::Normal => commanded(pre, key, selected, post, effect),
        InputMode::Insert => inserted(pre, key, selected, post, effect),
    }
}

impl View for Session {
    type V = SessionView;

    open spec fn view(&self) -> SessionView {
        SessionView {
            exit: self.exit,
            focus: self.focus_pane,
            mode: self.input_mode,
            buf: self.insert_buf@,
            path: self.finder.file_path@,
            words: self.finder.words(),
            rules: self.finder.rules(),
            order: self.finder.word_order,
        }
    }
}

impl Session {
    /// A session on an empty finder: the predicates have the focus, keys are
    /// commands, and the edit line is empty.
    pub fn new() -> (session: Self)
        ensures
            session@ == (SessionView {
                exit: false,
                focus: SelectableArea::Predicates,
                mode: InputMode::Normal,
                buf: Seq::empty(),
                path: Seq::empty(),
                words: Seq::empty(),
                rules: Seq::empty(),
                order: WordOrder::Alphabetical,
            }),
    {
        let session = Session {
            exit: false,
            finder: WordFinder::new(),
            focus_pane: SelectableArea::Predicates,
            input_mode: InputMode::Normal,
            insert_buf: String::new(),
        };
        assert(session@.buf =~= Seq::<char>::empty());
        assert(session@.path =~= Seq::<char>::empty());
        assert(session@.words =~= Seq::<Seq<char>>::empty());
        assert(session@.rules =~= Seq::<Rule>::empty());
        session
    }

    /// Handles one key press. `selected` is what the lists on screen have
    /// selected at that moment.
    pub fn handle_key_event(&mut self, key: Key, selected: Selection) -> (effect: Effect)
        ensures
            handled(old(self)@, key, selected, final(self)@, effect),
    {
        match self.input_mode {
            InputMode::Normal => self.handle_normal_mode(key, selected),
            InputMode::Insert => self.handle_insert_mode(key, selected),
        }
    }

    /// Handles a key press as a command.
    pub fn handle_normal_mode(&mut self, key: Key, selected: Selection) -> (effect: Effect)
        ensures
            commanded(old(self)@, key, selected, final(self)@, effect),
    {
        match key {
            Key::Char(c) => {
                if c == 'q' {
                    self.exit = true;
                } else if c == 'f' {
                    self.handle_edit_file();
                }
                Effect::Nothing
            },
            Key::Left => {
                self.handle_left_arrow();
                Effect::Nothing
            },
            Key::Right => {
                self.handle_right_arrow();
                Effect::Nothing
            },
            Key::Down => self.handle_down_arrow(),
            Key::Up => self.handle_up_arrow(),
            Key::Enter => self.handle_enter(selected),
            Key::Delete => self.handle_delete(selected),
            _ => Effect::Nothing,
        }
    }

    /// Handles a key press as text for the edit line.
    pub fn handle_insert_mode(&mut self, key: Key, selected: Selection) -> (effect: Effect)
        ensures
            inserted(old(self)@, key, selected, final(self)@, effect),
    {
        match key {
            Key::Char(c) => {
                push_char(&mut self.insert_buf, c);
            },
            Key::Enter => {
                self.input_mode = InputMode::Normal;
            },
            Key::Backspace => {
                pop_char(&mut self.insert_buf);
            },
            _ => {},
        }
        if self.focus_pane == SelectableArea::Predicates {
            self.update_predicate(selected)
        } else {
            Effect::Nothing
        }
    }

    /// Moves the focus one pane to the right.
    pub fn handle_right_arrow(&mut self)
        ensures
            final(self)@ == (SessionView { focus: old(self)@.focus.right_of(), ..old(self)@ }),
    {
        match self.focus_pane {
            SelectableArea::Words => {
                self.focus_pane = SelectableArea::Sorting;
            },
            SelectableArea::Sorting => {
                self.focus_pane = SelectableArea::Predicates;
            },
            _ => {},
        }
    }

    /// Moves the focus one pane to the left.
    pub fn handle_left_arrow(&mut self)
        ensures
            final(self)@ == (SessionView { focus: old(self)@.focus.left_of(), ..old(self)@ }),
    {
        match self.focus_pane {
            SelectableArea::Predicates => {
                self.focus_pane = SelectableArea::Sorting;
            },
            SelectableArea::Sorting => {
                self.focus_pane = SelectableArea::Words;
            },
            _ => {},
        }
    }

    /// Asks for the selection of the focused list to move down. In insert
    /// mode the arrows move nothing.
    pub fn handle_down_arrow(&self) -> (effect: Effect)
        ensures
            effect == if self.input_mode == InputMode::Normal && self@.focus.has_list() {
                Effect::SelectNext(self@.focus)
            } else {
                Effect::Nothing
            },
    {
        if self.input_mode != InputMode::Normal {
            return Effect::Nothing;
        }
        match self.focus_pane {
            SelectableArea::File => Effect::Nothing,
            pane => Effect::SelectNext(pane),
        }
    }

    /// Asks for the selection of the focused list to move up. In insert mode
    /// the arrows move nothing.
    pub fn handle_up_arrow(&self) -> (effect: Effect)
        ensures
            effect == if self.input_mode == InputMode::Normal && self@.focus.has_list() {
                Effect::SelectPrevious(self@.focus)
            } else {
                Effect::Nothing
            },
    {
        if self.input_mode != InputMode::Normal {
            return Effect::Nothing;
        }
        match self.focus_pane {
            SelectableArea::File => Effect::Nothing,
            pane => Effect::SelectPrevious(pane),
        }
    }

    /// Acts on the pane that has the focus.
    pub fn handle_enter(&mut self, selected: Selection) -> (effect: Effect)
        ensures
            entered(old(self)@, selected, final(self)@, effect),
    {
        match self.focus_pane {
            SelectableArea::Predicates => {
                let at = match selected.pred {
                    Some(at) => at,
                    None => {
                        return Effect::Nothing;
                    },
                };
                if at == self.finder.predicates.len() {
                    self.focus_pane = SelectableArea::NewPredicate;
                    Effect::SelectFirst(SelectableArea::NewPredicate)
                } else {
                    match self.finder.get_predicate_string(at) {
                        Ok(text) => {
                            self.insert_buf = text;
                            self.input_mode = InputMode::Insert;
                            Effect::Nothing
                        },
                        Err(e) => Effect::Report(e),
                    }
                }
            },
            SelectableArea::NewPredicate => {
                let kind = match selected.new_pred {
                    Some(kind) => kind,
                    None => {
                        return Effect::Nothing;
                    },
                };
                self.finder.add_predicate(kind);
                self.focus_pane = SelectableArea::Predicates;
                // The new predicate is edited at once.
                self.insert_buf = String::new();
                self.input_mode = InputMode::Insert;
                assert(self@.buf =~= Seq::<char>::empty());
                Effect::Nothing
            },
            SelectableArea::Sorting => {
                let index = match selected.sort {
                    Some(index) => index,
                    None => {
                        return Effect::Nothing;
                    },
                };
                self.finder.set_order(index);
                match self.finder.sort() {
                    Ok(_) => Effect::Nothing,
                    Err(e) => Effect::Report(e),
                }
            },
            SelectableArea::File => Effect::ReadFile,
            SelectableArea::Words => Effect::Nothing,
        }
    }

    /// Takes the selected predicate out of the chain, where the predicates
    /// have the focus.
    pub fn handle_delete(&mut self, selected: Selection) -> (effect: Effect)
        ensures
            deleted(old(self)@, selected, final(self)@, effect),
    {
        if self.focus_pane == SelectableArea::Predicates {
            match selected.pred {
                Some(at) => match self.finder.remove_predicate(at) {
                    Ok(_) => Effect::Nothing,
                    Err(e) => Effect::Report(e),
                },
                None => Effect::Nothing,
            }
        } else {
            Effect::Nothing
        }
    }

    /// Begins to edit the path of the word list: the path has the focus and
    /// stands in the edit line.
    pub fn handle_edit_file(&mut self)
        ensures
            final(self)@ == (SessionView {
                focus: SelectableArea::File,
                buf: old(self)@.path,
                mode: InputMode::Insert,
                ..old(self)@
            }),
    {
        self.focus_pane = SelectableArea::File;
        self.insert_buf = self.finder.file_path.clone();
        self.input_mode = InputMode::Insert;
    }

    /// Gives the selected predicate the edit line as its parameter. With
    /// nothing selected nothing changes; a selection that is no predicate is
    /// reported; else the list of words is to go back to its first entry.
    pub fn update_predicate(&mut self, selected: Selection) -> (effect: Effect)
        ensures
            match selected.pred {
                None => final(self)@ == old(self)@ && effect == Effect::Nothing,
                Some(at) => if at < old(self)@.rules.len() {
                    final(self)@ == (SessionView {
                        rules: old(self)@.rules.update(
                            at as int,
                            old(self)@.rules[at as int].with_text(old(self)@.buf),
                        ),
                        ..old(self)@
                    }) && effect == Effect::SelectFirst(SelectableArea::Words)
                } else {
                    final(self)@ == old(self)@ && effect == Effect::Report(
                        FinderError::IndexOutOfRange,
                    )
                },
            },
    {
        match selected.pred {
            Some(at) => match self.finder.update_predicate(at, self.insert_buf.as_str()) {
                Ok(_) => Effect::SelectFirst(SelectableArea::Words),
                Err(e) => Effect::Report(e),
            },
            None => Effect::Nothing,
        }
    }

    /// Takes in what the front end read after `ReadFile`: the text of the
    /// file whose path is in the edit line, or nothing where it could not be
    /// read. The word list is replaced, the words get the focus, and keys
    /// are commands again.
    pub fn file_read(&mut self, contents: Option<&str>)
        ensures
            final(self)@ == (SessionView {
                path: match contents {
                    Some(_) => old(self)@.buf,
                    None => Seq::empty(),
                },
                words: match contents {
                    Some(text) => words_of(text@),
                    None => Seq::empty(),
                },
                focus: SelectableArea::Words,
                mode: InputMode::Normal,
                ..old(self)@
            }),
    {
        self.finder.load(self.insert_buf.as_str(), contents);
        self.focus_pane = SelectableArea::Words;
        self.input_mode = InputMode::Normal;
        assert(contents.is_none() ==> self@.path =~= Seq::<char>::empty());
        assert(contents.is_none() ==> self@.words =~= Seq::<Seq<char>>::empty());
    }
}

} // verus!
