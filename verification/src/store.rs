//! The persistent store: for each application, the list of its inputs.

use crate::types::{Address, Input, InputView};
use std::sync::Arc;
use vstd::prelude::*;

verus! {

/// `im::Vector`, a persistent sequence: a clone shares its structure with
/// the vector it was made from, and changing one leaves the other.
#[verifier::external_type_specification]
#[verifier::external_body]
#[verifier::reject_recursive_types(A)]
pub struct ExVector<A>(im::Vector<A>);

/// `im::HashMap`, a persistent map: a clone shares its structure with the
/// map it was made from, and changing one leaves the other.
#[verifier::external_type_specification]
#[verifier::external_body]
#[verifier::reject_recursive_types(K)]
#[verifier::reject_recursive_types(V)]
#[verifier::reject_recursive_types(S)]
pub struct ExHashMap<K, V, S>(im::HashMap<K, V, S>);

/// The inputs of one application, oldest first.
#[derive(Debug)]
pub struct DAppInputBox {
    pub inputs: im::Vector<Arc<Input>>,
}

/// The store: from an application's address to its inputs.
pub type DAppInputBoxes = im::HashMap<Arc<Address>, Arc<DAppInputBox>>;

/// The items of a vector, front to back.
pub uninterp spec fn vector_items(v: im::Vector<Arc<Input>>) -> Seq<Input>;

/// The entries of a store, keyed by the bytes of the address.
pub uninterp spec fn map_entries(m: im::HashMap<Arc<Address>, Arc<DAppInputBox>>) -> Map<
    Seq<u8>,
    DAppInputBox,
>;

impl View for DAppInputBox {
    type V = Seq<InputView>;

    open spec fn view(&self) -> Seq<InputView> {
        vector_items(self.inputs).map_values(|input: Input| input@)
    }
}

/// What a store holds: for each application with an entry, the contents of
/// its inputs in order.
pub open spec fn input_lists(m: DAppInputBoxes) -> Map<Seq<u8>, Seq<InputView>> {
    map_entries(m).map_values(|b: DAppInputBox| b@)
}

/// `im::Vector::new`: a vector without items.
#[verifier::external_body]
pub(crate) fn vector_new() -> (v: im::Vector<Arc<Input>>)
    ensures
        vector_items(v) == Seq::<Input>::empty(),
{
    im::Vector::new()
}

/// `im::Vector::clone`: a vector with the same items.
#[verifier::external_body]
pub(crate) fn vector_clone(v: &im::Vector<Arc<Input>>) -> (r: im::Vector<Arc<Input>>)
    ensures
        vector_items(r) == vector_items(*v),
{
    v.clone()
}

/// `im::Vector::push_back`: the same items, then `item` at the back.
#[verifier::external_body]
pub(crate) fn vector_push_back(v: &mut im::Vector<Arc<Input>>, item: Arc<Input>)
    ensures
        vector_items(*final(v)) == vector_items(*old(v)).push(*item),
{
    v.push_back(item)
}

/// `im::HashMap::new`: a map without entries.
#[verifier::external_body]
pub(crate) fn map_new() -> (m: DAppInputBoxes)
    ensures
        map_entries(m) == (Map::<Seq<u8>, DAppInputBox>::empty()),
{
    im::HashMap::new()
}

/// `im::HashMap::clone`: a map with the same entries.
#[verifier::external_body]
pub(crate) fn map_clone(m: &DAppInputBoxes) -> (r: DAppInputBoxes)
    ensures
        map_entries(r) == map_entries(*m),
{
    m.clone()
}

/// `im::HashMap::get`: the value stored under `key`, if there is one.
#[verifier::external_body]
pub(crate) fn map_get<'a>(m: &'a DAppInputBoxes, key: &Address) -> (r: Option<
    &'a Arc<DAppInputBox>,
>)
    ensures
        r is Some <==> map_entries(*m).dom().contains(key@),
        r matches Some(b) ==> **b == map_entries(*m)[key@],
{
    m.get(key)
}

/// `im::HashMap::insert`: `value` is stored under `key`, in place of what
/// was there; every other entry stays.
#[verifier::external_body]
pub(crate) fn map_insert(m: &mut DAppInputBoxes, key: Arc<Address>, value: Arc<DAppInputBox>)
    ensures
        map_entries(*final(m)) == map_entries(*old(m)).insert(key@, *value),
{
    m.insert(key, value);
}

/// The lists after `input` was added for `application`: appended to the
/// application's list where it has one, else alone in a new list.
pub open spec fn spec_insert(
    lists: Map<Seq<u8>, Seq<InputView>>,
    application: Seq<u8>,
    input: InputView,
) -> Map<Seq<u8>, Seq<InputView>> {
    if lists.dom().contains(application) {
        lists.insert(application, lists[application].push(input))
    } else {
        lists.insert(application, seq![input])
    }
}

/// The lists after each of `inputs` was added, in order, for the
/// application it names.
pub open spec fn spec_insert_all(
    lists: Map<Seq<u8>, Seq<InputView>>,
    inputs: Seq<InputView>,
) -> Map<Seq<u8>, Seq<InputView>>
    decreases inputs.len(),
{
    if inputs.len() == 0 {
        lists
    } else {
        let last = inputs.last();
        spec_insert(spec_insert_all(lists, inputs.drop_last()), last.dapp, last)
    }
}

impl Clone for DAppInputBox {
    /// A list with the same inputs; the two share their structure.
    fn clone(&self) -> (r: DAppInputBox)
        ensures
            vector_items(r.inputs) == vector_items(self.inputs),
            r@ == self@,
    {
        DAppInputBox { inputs: vector_clone(&self.inputs) }
    }
}

impl DAppInputBox {
    /// The list made of `input` alone.
    pub fn unit(input: Arc<Input>) -> (r: DAppInputBox)
        ensures
            r@ == seq![input@],
    {
        let mut inputs = vector_new();
        vector_push_back(&mut inputs, input);
        let r = DAppInputBox { inputs };
        assert(r@ =~= seq![input@]);
        r
    }

    /// This list with `input` appended. The list itself stays as it is.
    pub fn appended(&self, input: Arc<Input>) -> (r: DAppInputBox)
        ensures
            r@ == self@.push(input@),
    {
        let mut inputs = vector_clone(&self.inputs);
        vector_push_back(&mut inputs, input);
        let r = DAppInputBox { inputs };
        assert(r@ =~= self@.push(input@));
        r
    }
}

/// Adds `input` for `application` to the store, in place.
pub fn insert_in_place(state: &mut DAppInputBoxes, application: Arc<Address>, input: Arc<Input>)
    ensures
        input_lists(*final(state)) == spec_insert(input_lists(*old(state)), application@, input@),
        map_entries(*final(state)).remove(application@) == map_entries(*old(state)).remove(
            application@,
        ),
{
    let updated = match map_get(state, &*application) {
        Some(current) => current.appended(input),
        None => DAppInputBox::unit(input),
    };
    map_insert(state, application, Arc::new(updated));
    assert(input_lists(*state) =~= spec_insert(input_lists(*old(state)), application@, input@));
}

/// The store with `input` added for `application`. `state` itself stays as
/// it is, and every application but this one has in the result the very
/// list it has in `state`.
pub fn insert(state: &DAppInputBoxes, application: Arc<Address>, input: Arc<Input>) -> (r:
    DAppInputBoxes)
    ensures
        input_lists(r) == spec_insert(input_lists(*state), application@, input@),
        map_entries(r).remove(application@) == map_entries(*state).remove(application@),
{
    let mut r = map_clone(state);
    insert_in_place(&mut r, application, input);
    r
}

} // verus!
