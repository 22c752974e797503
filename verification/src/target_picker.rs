//! Choosing the target of a cross-terminal transfer.

use vstd::multiset::Multiset;
use vstd::prelude::*;
use vstd::string::*;

use crate::text::{concat, to_chars};
use crate::trigger_state::EntityId;
use crate::zmodem_cross_transfer::{Endpoint, ZmodemCrossTransfer};
use crate::zmodem_transfer::{display_text, displayed};

verus! {

/// A terminal that may be chosen.
pub struct TargetChoice {
    pub terminal: EntityId,
    pub label: String,
}

/// A terminal that may be chosen, over plain values.
pub ghost struct ChoiceView {
    pub terminal: EntityId,
    pub label: Seq<char>,
}

impl View for TargetChoice {
    type V = ChoiceView;

    open spec fn view(&self) -> ChoiceView {
        ChoiceView { terminal: self.terminal, label: self.label@ }
    }
}

/// The view of choices.
pub open spec fn choices_view(choices: Seq<TargetChoice>) -> Seq<ChoiceView> {
    choices.map_values(|choice: TargetChoice| choice@)
}

/// Text in alphabetical order: by the first character that differs.
pub open spec fn text_less(first: Seq<char>, second: Seq<char>) -> bool
    decreases first.len(),
{
    if second.len() == 0 {
        false
    } else if first.len() == 0 {
        true
    } else if first[0] != second[0] {
        (first[0] as u32) < (second[0] as u32)
    } else {
        text_less(first.drop_first(), second.drop_first())
    }
}

/// The order of choices: by label, then by terminal.
pub open spec fn in_order(first: ChoiceView, second: ChoiceView) -> bool {
    text_less(first.label, second.label) || (first.label == second.label && first.terminal.0
        <= second.terminal.0)
}

/// Every two neighbours are in order.
pub open spec fn is_sorted(choices: Seq<ChoiceView>) -> bool {
    forall|i: int, j: int|
        0 <= i < j < choices.len() ==> in_order(#[trigger] choices[i], #[trigger] choices[j])
}

proof fn lemma_text_less_total(first: Seq<char>, second: Seq<char>)
    ensures
        text_less(first, second) || text_less(second, first) || first == second,
        !(text_less(first, second) && text_less(second, first)),
        first == second ==> !text_less(first, second),
    decreases first.len(),
{
    if first.len() > 0 && second.len() > 0 && first[0] == second[0] {
        lemma_text_less_total(first.drop_first(), second.drop_first());
        if first.drop_first() == second.drop_first() {
            assert(first =~= seq![first[0]] + first.drop_first());
            assert(second =~= seq![second[0]] + second.drop_first());
        }
    } else if first.len() == 0 && second.len() == 0 {
        assert(first =~= second);
    } else if first.len() > 0 && second.len() > 0 {
        vstd::utf8::char_u32_cast(first[0], first[0] as u32);
        vstd::utf8::char_u32_cast(second[0], second[0] as u32);
    }
}

proof fn lemma_text_less_transitive(a: Seq<char>, b: Seq<char>, c: Seq<char>)
    requires
        text_less(a, b),
        text_less(b, c),
    ensures
        text_less(a, c),
    decreases a.len(),
{
    if a.len() > 0 && b.len() > 0 && c.len() > 0 && a[0] == b[0] && b[0] == c[0] {
        lemma_text_less_transitive(a.drop_first(), b.drop_first(), c.drop_first());
    }
}

proof fn lemma_order_transitive(a: ChoiceView, b: ChoiceView, c: ChoiceView)
    requires
        in_order(a, b),
        in_order(b, c),
    ensures
        in_order(a, c),
{
    if text_less(a.label, b.label) && text_less(b.label, c.label) {
        lemma_text_less_transitive(a.label, b.label, c.label);
    }
}

/// Whether `first` comes before `second` in alphabetical order.
pub fn text_before(first: &str, second: &str) -> (r: bool)
    ensures
        r == text_less(first@, second@),
{
    let left: Vec<char> = to_chars(first);
    let right: Vec<char> = to_chars(second);
    let mut index: usize = 0;
    assert(left@.skip(0) =~= first@);
    assert(right@.skip(0) =~= second@);
    while index < left.len() && index < right.len()
        invariant
            index <= left.len(),
            index <= right.len(),
            text_less(first@, second@) == text_less(
                left@.skip(index as int),
                right@.skip(index as int),
            ),
        decreases left.len() - index,
    {
        if left[index] != right[index] {
            return (left[index] as u32) < (right[index] as u32);
        }
        assert(left@.skip(index as int).drop_first() =~= left@.skip(index + 1));
        assert(right@.skip(index as int).drop_first() =~= right@.skip(index + 1));
        index = index + 1;
    }
    index < right.len()
}

fn comes_first(first: &TargetChoice, second: &TargetChoice) -> (r: bool)
    ensures
        r == in_order(first@, second@),
{
    if text_before(first.label.as_str(), second.label.as_str()) {
        return true;
    }
    if text_before(second.label.as_str(), first.label.as_str()) {
        proof {
            lemma_text_less_total(first.label@, second.label@);
        }
        return false;
    }
    proof {
        lemma_text_less_total(first.label@, second.label@);
    }
    first.terminal.0 <= second.terminal.0
}

fn insert_choice(choices: &mut Vec<TargetChoice>, choice: TargetChoice)
    requires
        is_sorted(choices_view(old(choices)@)),
    ensures
        is_sorted(choices_view(final(choices)@)),
        choices_view(final(choices)@).to_multiset() == choices_view(
            old(choices)@,
        ).to_multiset().insert(choice@),
{
    let ghost all = choices_view(choices@);
    let ghost view = choice@;
    let mut index: usize = 0;
    assert(all.len() == choices@.len());
    while index < choices.len() && comes_first(&choices[index], &choice)
        invariant
            index <= choices.len(),
            all == choices_view(choices@),
            all.len() == choices@.len(),
            view == choice@,
            forall|i: int| 0 <= i < index ==> in_order(#[trigger] all[i], view),
        decreases choices.len() - index,
    {
        assert(all[index as int] == choices@[index as int]@);
        index = index + 1;
    }
    proof {
        if index < choices@.len() {
            assert(all[index as int] == choices@[index as int]@);
            lemma_text_less_total(all[index as int].label, view.label);
        }
    }
    choices.insert(index, choice);
    let ghost more = choices_view(choices@);
    proof {
        assert(more =~= all.insert(index as int, view));
        assert forall|i: int, j: int| 0 <= i < j < more.len() implies in_order(
            #[trigger] more[i],
            #[trigger] more[j],
        ) by {
            if i < index && j > index {
                assert(in_order(all[i], all[j - 1]));
            } else if i == index && j > index {
                if j - 1 > index {
                    lemma_order_transitive(view, all[index as int], all[j - 1]);
                }
            } else if i > index {
                assert(in_order(all[i - 1], all[j - 1]));
            }
        }
        vstd::seq_lib::to_multiset_insert(all, index as int, view);
    }
}

/// The terminal may be the target of a transfer from `source`.
pub open spec fn may_be_chosen(
    all: crate::zmodem_cross_transfer::CrossView,
    source: EntityId,
    endpoint: Endpoint,
) -> bool {
    endpoint.terminal != source && !all.is_reserved(endpoint.terminal) && endpoint.available
        && !endpoint.busy
}

/// The terminals among the first `count` that may be chosen, each with its
/// label.
pub open spec fn chosen_from(
    all: crate::zmodem_cross_transfer::CrossView,
    source: EntityId,
    visible: Seq<Endpoint>,
    count: int,
) -> Multiset<ChoiceView>
    decreases count,
{
    if count <= 0 {
        Multiset::empty()
    } else {
        let endpoint = visible[count - 1];
        let before = chosen_from(all, source, visible, count - 1);
        if may_be_chosen(all, source, endpoint) {
            before.insert(ChoiceView { terminal: endpoint.terminal, label: endpoint.label@ })
        } else {
            before
        }
    }
}

/// The terminals that may be chosen as the target, by label.
pub fn target_choices(
    all: &ZmodemCrossTransfer,
    source: EntityId,
    visible: &Vec<Endpoint>,
) -> (r: Vec<TargetChoice>)
    ensures
        is_sorted(choices_view(r@)),
        choices_view(r@).to_multiset() == chosen_from(all@, source, visible@, visible@.len() as int),
{
    let mut choices: Vec<TargetChoice> = Vec::new();
    let mut index: usize = 0;
    proof {
        assert(choices_view(choices@) =~= Seq::<ChoiceView>::empty());
        choices_view(choices@).to_multiset_ensures();
        assert(choices_view(choices@).to_multiset() =~= Multiset::<ChoiceView>::empty());
    }
    while index < visible.len()
        invariant
            index <= visible.len(),
            is_sorted(choices_view(choices@)),
            choices_view(choices@).to_multiset() == chosen_from(
                all@,
                source,
                visible@,
                index as int,
            ),
        decreases visible.len() - index,
    {
        let endpoint = &visible[index];
        if endpoint.terminal != source && !all.is_reserved(endpoint.terminal) && endpoint.available
            && !endpoint.busy {
            insert_choice(
                &mut choices,
                TargetChoice { terminal: endpoint.terminal, label: endpoint.label.clone() },
            );
        }
        index = index + 1;
    }
    choices
}

/// The label of a terminal: its title, and who is logged in where.
pub open spec fn label_text(title: Seq<char>, host: Option<(Seq<char>, Seq<char>)>) -> Seq<char> {
    displayed(
        match host {
            Some((user, hostname)) => {
                let login = user + "@"@ + hostname;
                if title.len() > 0 {
                    title + " ("@ + login + ")"@
                } else {
                    login
                }
            },
            None => if title.len() > 0 {
                title
            } else {
                "Terminal"@
            },
        },
    )
}

/// The label of a terminal.
pub fn terminal_label(title: &str, host: Option<(&str, &str)>) -> (r: String)
    ensures
        r@ == label_text(
            title@,
            match host {
                Some((user, hostname)) => Some((user@, hostname@)),
                None => None,
            },
        ),
{
    match host {
        Some((user, hostname)) => {
            let mut login = concat(user, "@");
            login.append(hostname);
            if title.is_empty() {
                return display_text(login.as_str());
            }
            let mut label = concat(title, " (");
            label.append(login.as_str());
            label.append(")");
            assert(label@ =~= title@ + " ("@ + login@ + ")"@);
            display_text(label.as_str())
        },
        None => {
            if title.is_empty() {
                display_text("Terminal")
            } else {
                display_text(title)
            }
        },
    }
}

/// What the user does in the picker.
#[derive(Clone, Copy, Debug, PartialEq, Eq, Structural)]
pub enum CrossTransferPickerAction {
    Select(usize),
    Confirm,
    Cancel,
}

/// What the picker has to do.
#[derive(Clone, Copy, Debug, PartialEq, Eq, Structural)]
pub enum PickerStep {
    /// Draw the picker anew.
    Redraw,
    /// Close the picker.
    Close,
    /// Form a pair with the choice at this index.
    Begin(usize),
    /// Nothing.
    Nothing,
}

/// The picker of a target.
pub struct CrossTransferPicker {
    pub source_title: String,
    pub choices: Vec<TargetChoice>,
    pub selected: usize,
    pub error: Option<String>,
}

impl CrossTransferPicker {
    /// A picker with its first choice selected.
    pub fn new(source_title: &str, choices: Vec<TargetChoice>) -> (r: Self)
        ensures
            r.source_title@ == displayed(source_title@),
            r.choices == choices,
            r.selected == 0,
            r.error is None,
    {
        CrossTransferPicker {
            source_title: display_text(source_title),
            choices,
            selected: 0,
            error: None,
        }
    }

    /// Takes what the user does.
    pub fn handle_action(&mut self, action: &CrossTransferPickerAction) -> (r: PickerStep)
        ensures
            match *action {
                CrossTransferPickerAction::Select(index) => r == PickerStep::Redraw
                    && *final(self) == (CrossTransferPicker { selected: index, ..*old(self) }),
                CrossTransferPickerAction::Cancel => r == PickerStep::Close && *final(self)
                    == *old(self),
                CrossTransferPickerAction::Confirm => *final(self) == *old(self) && r == if old(
                    self,
                ).selected < old(self).choices@.len() {
                    PickerStep::Begin(old(self).selected)
                } else {
                    PickerStep::Nothing
                },
            },
    {
        match action {
            CrossTransferPickerAction::Select(index) => {
                self.selected = *index;
                PickerStep::Redraw
            },
            CrossTransferPickerAction::Cancel => PickerStep::Close,
            CrossTransferPickerAction::Confirm => {
                if self.selected < self.choices.len() {
                    PickerStep::Begin(self.selected)
                } else {
                    PickerStep::Nothing
                }
            },
        }
    }

    /// Takes over why no pair was formed.
    pub fn refused(&mut self, reason: &str)
        ensures
            final(self).error matches Some(error) && error@ == reason@,
            final(self).choices == old(self).choices,
            final(self).selected == old(self).selected,
            final(self).source_title == old(self).source_title,
    {
        self.error = Some(reason.to_owned());
    }

    /// What is shown under the choices.
    pub fn notice(&self) -> (r: Option<String>)
        ensures
            match (self.error, r) {
                (Some(error), Some(text)) => text@ == error@,
                (None, Some(text)) => self.choices@.len() == 0 && text@
                    == "No available target terminals"@,
                (None, None) => self.choices@.len() > 0,
                _ => false,
            },
    {
        match &self.error {
            Some(error) => Some(error.clone()),
            None => {
                if self.choices.len() == 0 {
                    Some("No available target terminals".to_owned())
                } else {
                    None
                }
            },
        }
    }
}

/// Text is in a total order: of two different texts exactly one comes first,
/// none comes before itself, and the order carries over.
pub proof fn law_text_order_is_total(a: Seq<char>, b: Seq<char>, c: Seq<char>)
    ensures
        !text_less(a, a),
        a != b ==> text_less(a, b) != text_less(b, a),
        text_less(a, b) && text_less(b, c) ==> text_less(a, c),
    decreases a.len() + b.len() + c.len(),
{
    if a.len() > 0 {
        law_text_order_is_total(
            a.drop_first(),
            if b.len() > 0 {
                b.drop_first()
            } else {
                b
            },
            if c.len() > 0 {
                c.drop_first()
            } else {
                c
            },
        );
        if b.len() > 0 {
            if a[0] == b[0] {
                if a.drop_first() == b.drop_first() {
                    assert(a =~= seq![a[0]] + a.drop_first());
                    assert(b =~= seq![b[0]] + b.drop_first());
                }
            } else {
                vstd::utf8::char_u32_cast(a[0], a[0] as u32);
                vstd::utf8::char_u32_cast(b[0], b[0] as u32);
            }
        }
    } else if b.len() == 0 {
        assert(a =~= b);
    }
}

/// The first character that differs decides, and a front comes before the
/// whole.
pub proof fn law_the_first_difference_decides(front: Seq<char>, a: Seq<char>, b: Seq<char>)
    ensures
        text_less(front + a, front + b) == text_less(a, b),
        a.len() > 0 && b.len() > 0 && a[0] != b[0] ==> text_less(front + a, front + b) == ((
        a[0] as u32) < (b[0] as u32)),
        b.len() > 0 ==> text_less(front, front + b),
    decreases front.len(),
{
    if front.len() == 0 {
        assert(front + a =~= a);
        assert(front + b =~= b);
    } else {
        law_the_first_difference_decides(front.drop_first(), a, b);
        assert((front + a).drop_first() =~= front.drop_first() + a);
        assert((front + b).drop_first() =~= front.drop_first() + b);
    }
}

/// A terminal is offered exactly if it is another one than the source, belongs
/// to no pair, and can transfer and does not; it is offered under its label.
pub proof fn law_free_terminals_are_offered(
    all: crate::zmodem_cross_transfer::CrossView,
    source: EntityId,
    visible: Seq<Endpoint>,
    count: int,
    choice: ChoiceView,
)
    requires
        0 <= count <= visible.len(),
    ensures
        chosen_from(all, source, visible, count).count(choice) > 0 <==> exists|i: int|
            {
                &&& 0 <= i < count
                &&& (#[trigger] visible[i]).terminal == choice.terminal
                &&& visible[i].label@ == choice.label
                &&& visible[i].terminal != source
                &&& !all.is_reserved(visible[i].terminal)
                &&& visible[i].available
                &&& !visible[i].busy
            },
    decreases count,
{
    if count > 0 {
        law_free_terminals_are_offered(all, source, visible, count - 1, choice);
        let endpoint = visible[count - 1];
        let before = chosen_from(all, source, visible, count - 1);
        let one = ChoiceView { terminal: endpoint.terminal, label: endpoint.label@ };
        if may_be_chosen(all, source, endpoint) {
            assert(before.insert(one).count(choice) >= before.count(choice));
            if choice == one {
                assert(before.insert(one).count(choice) > 0);
                assert(visible[count - 1].terminal == choice.terminal);
            } else {
                assert(before.insert(one).count(choice) == before.count(choice));
            }
        }
    }
}

/// A terminal is labelled with its title and, where somebody is logged in, with
/// who and where; one without either is just a terminal.
pub proof fn law_labels_show_title_and_login(
    title: Seq<char>,
    user: Seq<char>,
    hostname: Seq<char>,
)
    ensures
        title.len() > 0 ==> label_text(title, None) == displayed(title),
        title.len() == 0 ==> label_text(title, None) == displayed("Terminal"@),
        title.len() == 0 ==> label_text(title, Some((user, hostname))) == displayed(
            user + "@"@ + hostname,
        ),
        title.len() > 0 ==> label_text(title, Some((user, hostname))) == displayed(
            title + " ("@ + (user + "@"@ + hostname) + ")"@,
        ),
{
}

/// Choices are in a total order: two different ones have exactly one order,
/// and the order carries over, so there is one way to sort them.
pub proof fn law_choice_order_is_total(a: ChoiceView, b: ChoiceView, c: ChoiceView)
    ensures
        in_order(a, a),
        in_order(a, b) || in_order(b, a),
        in_order(a, b) && in_order(b, a) ==> a == b,
        in_order(a, b) && in_order(b, c) ==> in_order(a, c),
        text_less(a.label, b.label) ==> in_order(a, b) && !in_order(b, a),
        a.label == b.label ==> (in_order(a, b) <==> a.terminal.0 <= b.terminal.0),
{
    law_text_order_is_total(a.label, b.label, c.label);
    law_text_order_is_total(b.label, c.label, a.label);
    law_text_order_is_total(b.label, a.label, c.label);
    law_text_order_is_total(a.label, c.label, b.label);
}

/// Sorted choices come in order wherever they are compared.
pub proof fn law_sorted_choices_are_in_order(choices: Seq<ChoiceView>, first: int, second: int)
    requires
        is_sorted(choices),
        0 <= first <= second < choices.len(),
    ensures
        !text_less(choices[second].label, choices[first].label),
        choices[first].label == choices[second].label ==> choices[first].terminal.0
            <= choices[second].terminal.0,
{
    let (a, b) = (choices[first], choices[second]);
    law_text_order_is_total(a.label, b.label, a.label);
    law_text_order_is_total(b.label, a.label, b.label);
    if first < second {
        assert(in_order(choices[first], choices[second]));
    }
}

} // verus!
