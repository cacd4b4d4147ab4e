//! The query document: operations, fragments and selections, and the lookups
//! the engine makes in them.
use vstd::prelude::*;
use crate::position::Position;
use crate::util::{find_first, lemma_first_match_at, models, text_is};
use crate::value::{clone_entries, entries_view, entry_value, Value, ValueModel};

verus! {

/// A directive attached to a selection, with its arguments.
#[derive(Debug, PartialEq)]
pub struct Directive {
    pub name: String,
    pub arguments: Vec<(String, Value)>,
}

/// The model of a [`Directive`].
pub struct DirectiveModel {
    pub name: Seq<char>,
    pub arguments: Seq<(Seq<char>, ValueModel)>,
}

impl View for Directive {
    type V = DirectiveModel;

    open spec fn view(&self) -> DirectiveModel {
        DirectiveModel { name: self.name@, arguments: entries_view(self.arguments@) }
    }
}

/// A field selection.
#[derive(Debug, PartialEq)]
pub struct Field {
    pub position: Position,
    pub alias: Option<String>,
    pub name: String,
    pub arguments: Vec<(String, Value)>,
    pub directives: Vec<Directive>,
    pub selection_set: SelectionSet,
}

/// The spread of a named fragment.
#[derive(Debug, PartialEq)]
pub struct FragmentSpread {
    pub fragment_name: String,
    pub directives: Vec<Directive>,
}

/// An inline fragment. The engine does not expand inline fragments; it keeps
/// of one only what decides whether the selection is considered at all.
#[derive(Debug, PartialEq)]
pub struct InlineFragment {
    pub directives: Vec<Directive>,
}

/// One selection of a selection set.
#[derive(Debug, PartialEq)]
pub enum Selection {
    Field(Field),
    FragmentSpread(FragmentSpread),
    InlineFragment(InlineFragment),
}

/// An ordered list of selections with the span it covers in the document.
#[derive(Debug, PartialEq)]
pub struct SelectionSet {
    pub span: (Position, Position),
    pub items: Vec<Selection>,
}

/// The model of a [`Field`].
pub struct FieldModel {
    pub position: Position,
    pub alias: Option<Seq<char>>,
    pub name: Seq<char>,
    pub arguments: Seq<(Seq<char>, ValueModel)>,
    pub directives: Seq<DirectiveModel>,
    pub selection_set: SelectionSetModel,
}

/// The model of a [`FragmentSpread`].
pub struct FragmentSpreadModel {
    pub fragment_name: Seq<char>,
    pub directives: Seq<DirectiveModel>,
}

/// The model of an [`InlineFragment`].
pub struct InlineFragmentModel {
    pub directives: Seq<DirectiveModel>,
}

/// The model of a [`Selection`].
pub enum SelectionModel {
    Field(FieldModel),
    FragmentSpread(FragmentSpreadModel),
    InlineFragment(InlineFragmentModel),
}

/// The model of a [`SelectionSet`].
pub struct SelectionSetModel {
    pub span: (Position, Position),
    pub items: Seq<SelectionModel>,
}

/// The model of a field selection.
pub open spec fn field_model(f: Field) -> FieldModel
    decreases f,
{
    FieldModel {
        position: f.position,
        alias: match f.alias {
            Some(a) => Some(a@),
            None => None,
        },
        name: f.name@,
        arguments: entries_view(f.arguments@),
        directives: models(f.directives@),
        selection_set: selection_set_model(f.selection_set),
    }
}

/// The model of a selection.
pub open spec fn selection_model(s: Selection) -> SelectionModel
    decreases s,
{
    match s {
        Selection::Field(f) => SelectionModel::Field(field_model(f)),
        Selection::FragmentSpread(spread) => SelectionModel::FragmentSpread(
            FragmentSpreadModel {
                fragment_name: spread.fragment_name@,
                directives: models(spread.directives@),
            },
        ),
        Selection::InlineFragment(inline) => SelectionModel::InlineFragment(
            InlineFragmentModel { directives: models(inline.directives@) },
        ),
    }
}

/// The model of a selection set.
pub open spec fn selection_set_model(set: SelectionSet) -> SelectionSetModel
    decreases set,
{
    SelectionSetModel {
        span: set.span,
        items: Seq::new(
            set.items.len() as nat,
            |i: int|
                if 0 <= i < set.items.len() {
                    selection_model(set.items[i])
                } else {
                    SelectionModel::InlineFragment(InlineFragmentModel { directives: Seq::empty() })
                },
        ),
    }
}

impl View for Field {
    type V = FieldModel;

    open spec fn view(&self) -> FieldModel {
        field_model(*self)
    }
}

impl View for FragmentSpread {
    type V = FragmentSpreadModel;

    open spec fn view(&self) -> FragmentSpreadModel {
        FragmentSpreadModel {
            fragment_name: self.fragment_name@,
            directives: models(self.directives@),
        }
    }
}

impl View for InlineFragment {
    type V = InlineFragmentModel;

    open spec fn view(&self) -> InlineFragmentModel {
        InlineFragmentModel { directives: models(self.directives@) }
    }
}

impl View for Selection {
    type V = SelectionModel;

    open spec fn view(&self) -> SelectionModel {
        selection_model(*self)
    }
}

impl View for SelectionSet {
    type V = SelectionSetModel;

    open spec fn view(&self) -> SelectionSetModel {
        selection_set_model(*self)
    }
}

/// The items of a selection set's model are the models of its items.
pub proof fn lemma_selection_set_view(set: SelectionSet)
    ensures
        set@.span == set.span,
        set@.items == models(set.items@),
{
    assert(set@.items =~= models(set.items@));
}

impl Clone for Directive {
    fn clone(&self) -> (copy: Directive)
        ensures
            copy@ == self@,
    {
        Directive { name: self.name.clone(), arguments: clone_entries(&self.arguments) }
    }
}

/// Copies a list of directives.
pub fn clone_directives(directives: &Vec<Directive>) -> (copy: Vec<Directive>)
    ensures
        models(copy@) == models(directives@),
{
    let mut out: Vec<Directive> = Vec::new();
    let mut i: usize = 0;
    while i < directives.len()
        invariant
            i <= directives.len(),
            out.len() == i,
            forall|j: int| 0 <= j < i ==> out[j]@ == directives[j]@,
        decreases directives.len() - i,
    {
        out.push(directives[i].clone());
        i += 1;
    }
    assert(models(out@) =~= models(directives@));
    out
}

impl Clone for Field {
    fn clone(&self) -> (copy: Field)
        ensures
            copy@ == self@,
        decreases self,
    {
        let alias = match &self.alias {
            Some(a) => Some(a.clone()),
            None => None,
        };
        Field {
            position: self.position,
            alias,
            name: self.name.clone(),
            arguments: clone_entries(&self.arguments),
            directives: clone_directives(&self.directives),
            selection_set: self.selection_set.clone(),
        }
    }
}

impl Clone for Selection {
    fn clone(&self) -> (copy: Selection)
        ensures
            copy@ == self@,
        decreases self,
    {
        match self {
            Selection::Field(f) => Selection::Field(f.clone()),
            Selection::FragmentSpread(s) => Selection::FragmentSpread(
                FragmentSpread {
                    fragment_name: s.fragment_name.clone(),
                    directives: clone_directives(&s.directives),
                },
            ),
            Selection::InlineFragment(i) => Selection::InlineFragment(
                InlineFragment { directives: clone_directives(&i.directives) },
            ),
        }
    }
}

impl Clone for SelectionSet {
    fn clone(&self) -> (copy: SelectionSet)
        ensures
            copy@ == self@,
        decreases self,
    {
        let mut out: Vec<Selection> = Vec::new();
        let mut i: usize = 0;
        while i < self.items.len()
            invariant
                i <= self.items.len(),
                out.len() == i,
                forall|j: int| 0 <= j < i ==> out[j]@ == self.items[j]@,
            decreases self.items.len() - i,
        {
            proof {
                assert(decreases_to!(self.items => self.items[i as int]));
                assert(decreases_to!(*self => self.items));
            }
            let item = self.items[i].clone();
            out.push(item);
            i += 1;
        }
        let copy = SelectionSet { span: self.span, items: out };
        proof {
            lemma_selection_set_view(copy);
            lemma_selection_set_view(*self);
            assert(models(copy.items@) =~= models(self.items@));
        }
        copy
    }
}

/// A fragment definition: its name, the name of the type it applies to and its
/// selections.
#[derive(Debug, PartialEq)]
pub struct FragmentDefinition {
    pub name: String,
    pub type_condition: String,
    pub selection_set: SelectionSet,
}

/// The model of a [`FragmentDefinition`].
pub struct FragmentDefinitionModel {
    pub name: Seq<char>,
    pub type_condition: Seq<char>,
    pub selection_set: SelectionSetModel,
}

impl View for FragmentDefinition {
    type V = FragmentDefinitionModel;

    open spec fn view(&self) -> FragmentDefinitionModel {
        FragmentDefinitionModel {
            name: self.name@,
            type_condition: self.type_condition@,
            selection_set: self.selection_set@,
        }
    }
}

/// A named or anonymous operation with its selections.
#[derive(Debug, PartialEq)]
pub struct Operation {
    pub name: Option<String>,
    pub selection_set: SelectionSet,
}

/// The model of an [`Operation`].
pub struct OperationModel {
    pub name: Option<Seq<char>>,
    pub selection_set: SelectionSetModel,
}

impl View for Operation {
    type V = OperationModel;

    open spec fn view(&self) -> OperationModel {
        OperationModel {
            name: match self.name {
                Some(n) => Some(n@),
                None => None,
            },
            selection_set: self.selection_set@,
        }
    }
}

/// An operation of a query document.
#[derive(Debug, PartialEq)]
pub enum OperationDefinition {
    SelectionSet(SelectionSet),
    Query(Operation),
    Mutation(Operation),
    Subscription(Operation),
}

/// The model of an [`OperationDefinition`].
pub enum OperationDefinitionModel {
    SelectionSet(SelectionSetModel),
    Query(OperationModel),
    Mutation(OperationModel),
    Subscription(OperationModel),
}

impl View for OperationDefinition {
    type V = OperationDefinitionModel;

    open spec fn view(&self) -> OperationDefinitionModel {
        match self {
            OperationDefinition::SelectionSet(s) => OperationDefinitionModel::SelectionSet(s@),
            OperationDefinition::Query(o) => OperationDefinitionModel::Query(o@),
            OperationDefinition::Mutation(o) => OperationDefinitionModel::Mutation(o@),
            OperationDefinition::Subscription(o) => OperationDefinitionModel::Subscription(o@),
        }
    }
}

impl OperationDefinitionModel {
    /// The name of the operation, if it has one.
    pub open spec fn name(self) -> Option<Seq<char>> {
        match self {
            OperationDefinitionModel::SelectionSet(_) => None,
            OperationDefinitionModel::Query(o) => o.name,
            OperationDefinitionModel::Mutation(o) => o.name,
            OperationDefinitionModel::Subscription(o) => o.name,
        }
    }
}

/// A query document: its operations and its fragment definitions, each in the
/// order of the document.
#[derive(Debug, PartialEq)]
pub struct Document {
    pub operations: Vec<OperationDefinition>,
    pub fragments: Vec<FragmentDefinition>,
}

/// The model of a [`Document`].
pub struct DocumentModel {
    pub operations: Seq<OperationDefinitionModel>,
    pub fragments: Seq<FragmentDefinitionModel>,
}

impl View for Document {
    type V = DocumentModel;

    open spec fn view(&self) -> DocumentModel {
        DocumentModel {
            operations: models(self.operations@),
            fragments: models(self.fragments@),
        }
    }
}

impl DocumentModel {
    /// The first fragment definition named `name`.
    pub open spec fn fragment(self, name: Seq<char>) -> Option<FragmentDefinitionModel> {
        find_first(self.fragments, |f: FragmentDefinitionModel| f.name == name)
    }
}

impl FieldModel {
    /// The key under which the field appears in a response: its alias, or its
    /// name when it has none.
    pub open spec fn response_key(self) -> Seq<char> {
        match self.alias {
            Some(alias) => alias,
            None => self.name,
        }
    }
}

impl SelectionModel {
    /// The directives attached to the selection.
    pub open spec fn directives(self) -> Seq<DirectiveModel> {
        match self {
            SelectionModel::Field(f) => f.directives,
            SelectionModel::FragmentSpread(s) => s.directives,
            SelectionModel::InlineFragment(i) => i.directives,
        }
    }

    /// The first directive of the selection named `name`.
    pub open spec fn directive(self, name: Seq<char>) -> Option<DirectiveModel> {
        find_first(self.directives(), |d: DirectiveModel| d.name == name)
    }

    /// Whether a `skip` directive removes the selection: it does when its `if`
    /// argument is the literal `true`, or is missing.
    pub open spec fn skipped(self) -> bool {
        match self.directive("skip"@) {
            Some(d) => match entry_value(d.arguments, "if"@) {
                Some(ValueModel::Boolean(b)) => b,
                Some(_) => false,
                None => true,
            },
            None => false,
        }
    }

    /// Whether the selection is kept as far as an `include` directive goes: it
    /// is when it has none, or when the directive's `if` argument is the
    /// literal `true`, or is missing.
    pub open spec fn included(self) -> bool {
        match self.directive("include"@) {
            Some(d) => match entry_value(d.arguments, "if"@) {
                Some(ValueModel::Boolean(b)) => b,
                Some(_) => false,
                None => true,
            },
            None => true,
        }
    }

    /// Whether the selection takes part in an execution.
    pub open spec fn considered(self) -> bool {
        !self.skipped() && self.included()
    }
}

/// Returns the key under which `field` appears in a response.
pub fn get_response_key(field: &Field) -> (key: &String)
    ensures
        key@ == field@.response_key(),
{
    match &field.alias {
        Some(alias) => alias,
        None => &field.name,
    }
}

/// Looks up the first fragment definition of `document` named `name`.
pub fn get_fragment<'a>(document: &'a Document, name: &String) -> (found: Option<
    &'a FragmentDefinition,
>)
    ensures
        match found {
            Some(f) => document@.fragment(name@) == Some(f@),
            None => document@.fragment(name@).is_none(),
        },
{
    let mut i: usize = 0;
    while i < document.fragments.len()
        invariant
            i <= document.fragments.len(),
            forall|j: int| 0 <= j < i ==> (#[trigger] document@.fragments[j]).name != name@,
        decreases document.fragments.len() - i,
    {
        assert(document@.fragments[i as int] == document.fragments[i as int]@);
        if document.fragments[i].name == *name {
            proof {
                lemma_first_match_at(
                    document@.fragments,
                    |f: FragmentDefinitionModel| f.name == name@,
                    i as int,
                );
            }
            return Some(&document.fragments[i]);
        }
        i += 1;
    }
    proof {
        lemma_first_match_at(
            document@.fragments,
            |f: FragmentDefinitionModel| f.name == name@,
            i as int,
        );
    }
    None
}

/// Looks up the value given for the argument `name`: that of the first
/// argument with that name.
pub fn get_argument_value<'a>(arguments: &'a Vec<(String, Value)>, name: &String) -> (found:
    Option<&'a Value>)
    ensures
        match found {
            Some(v) => entry_value(entries_view(arguments@), name@) == Some(v@),
            None => entry_value(entries_view(arguments@), name@).is_none(),
        },
{
    Value::get(arguments, name)
}

/// Returns the directives attached to `selection`.
pub fn get_directives(selection: &Selection) -> (directives: &Vec<Directive>)
    ensures
        models(directives@) == selection@.directives(),
{
    match selection {
        Selection::Field(f) => &f.directives,
        Selection::FragmentSpread(s) => &s.directives,
        Selection::InlineFragment(i) => &i.directives,
    }
}

/// Looks up the first directive of `selection` named `name`.
pub fn get_directive<'a>(selection: &'a Selection, name: &str) -> (found: Option<&'a Directive>)
    ensures
        match found {
            Some(d) => selection@.directive(name@) == Some(d@),
            None => selection@.directive(name@).is_none(),
        },
{
    let directives = get_directives(selection);
    let mut i: usize = 0;
    while i < directives.len()
        invariant
            i <= directives.len(),
            models(directives@) == selection@.directives(),
            forall|j: int| 0 <= j < i ==> (#[trigger] models(directives@)[j]).name != name@,
        decreases directives.len() - i,
    {
        assert(models(directives@)[i as int] == directives[i as int]@);
        if text_is(&directives[i].name, name) {
            proof {
                lemma_first_match_at(
                    models(directives@),
                    |d: DirectiveModel| d.name == name@,
                    i as int,
                );
            }
            return Some(&directives[i]);
        }
        i += 1;
    }
    proof {
        lemma_first_match_at(models(directives@), |d: DirectiveModel| d.name == name@, i as int);
    }
    None
}

/// Reads the `if` argument of a directive: `Some(b)` for the literal `b`,
/// `Some(false)` for any other value, `None` when the argument is missing.
fn condition_of(directive: &Directive) -> (condition: Option<bool>)
    ensures
        condition == match entry_value(directive@.arguments, "if"@) {
            Some(ValueModel::Boolean(b)) => Some(b),
            Some(_) => Some(false),
            None => None,
        },
{
    let name = "if".to_owned();
    match get_argument_value(&directive.arguments, &name) {
        Some(Value::Boolean(b)) => Some(*b),
        Some(_) => Some(false),
        None => None,
    }
}

/// Whether a `skip` directive removes `selection`.
pub fn skip_selection(selection: &Selection) -> (skip: bool)
    ensures
        skip == selection@.skipped(),
{
    match get_directive(selection, "skip") {
        Some(directive) => match condition_of(directive) {
            Some(b) => b,
            None => true,
        },
        None => false,
    }
}

/// Whether `selection` is kept as far as an `include` directive goes.
pub fn include_selection(selection: &Selection) -> (keep: bool)
    ensures
        keep == selection@.included(),
{
    match get_directive(selection, "include") {
        Some(directive) => match condition_of(directive) {
            Some(b) => b,
            None => true,
        },
        None => true,
    }
}

} // verus!
