use vstd::prelude::*;
use indexmap::IndexMap;
use crate::execution::arity::Arity;

verus! {

/// The native functions of the language.
#[derive(Clone, Copy, Debug, PartialEq, Eq, Structural)]
pub enum BuiltinFunction {
    Sum,
    Int,
    List,
    Arity,
    IsVararg,
}

/// The native methods of the language.
#[derive(Clone, Copy, Debug, PartialEq, Eq, Structural)]
pub enum BuiltinMethod {
    IntAbs,
    IntMod,
}

/// Native code that a name of the registry stands for.
#[derive(Clone, Copy, Debug, PartialEq, Eq, Structural)]
pub enum Native {
    Function(BuiltinFunction),
    Method(BuiltinMethod),
}

/// What the registry keeps under a name: how many arguments the native code
/// takes, and which code it is.
#[derive(Clone, Copy, Debug, PartialEq, Eq, Structural)]
pub struct NativeEntry {
    pub arity: Arity,
    pub native: Native,
}

/// A table from names to native entries that keeps the order of insertion.
pub type NativeTable = IndexMap<String, NativeEntry>;

/// A table from class names to the method table of each class.
pub type ClassTable = IndexMap<String, NativeTable>;

/// `indexmap::IndexMap`, the hash table that keeps the order of insertion.
/// Nothing is known of a value of it but what the functions below say.
#[verifier::external_type_specification]
#[verifier::external_body]
#[verifier::reject_recursive_types(K)]
#[verifier::reject_recursive_types(V)]
#[verifier::reject_recursive_types(S)]
pub struct ExIndexMap<K, V, S>(IndexMap<K, V, S>);

/// The names of a table with their entries, in the table's order.
pub uninterp spec fn native_entries(table: NativeTable) -> Seq<(Seq<char>, NativeEntry)>;

/// The class names of a table with their method tables, in the table's order.
pub uninterp spec fn class_entries(table: ClassTable) -> Seq<(Seq<char>, NativeTable)>;

/// No pair of `entries` has the key `key`.
pub open spec fn no_key<V>(entries: Seq<(Seq<char>, V)>, key: Seq<char>) -> bool {
    forall|i: int| 0 <= i < entries.len() ==> (#[trigger] entries[i]).0 != key
}

/// `IndexMap::new`: the new table holds nothing.
#[verifier::external_body]
pub(crate) fn native_table_new() -> (table: NativeTable)
    ensures
        native_entries(table) == Seq::<(Seq<char>, NativeEntry)>::empty(),
{
    IndexMap::new()
}

/// `IndexMap::insert`: where the key is already in the table, its entry is
/// replaced in place and the former entry is handed back; where it is not,
/// the pair is added last and nothing is handed back.
#[verifier::external_body]
pub(crate) fn native_table_insert(table: &mut NativeTable, key: String, value: NativeEntry) -> (former: Option<NativeEntry>)
    ensures
        forall|i: int|
            0 <= i < native_entries(*old(table)).len() && (#[trigger] native_entries(
                *old(table),
            )[i]).0 == key@ ==> former == Some(native_entries(*old(table))[i].1) && native_entries(
                *final(table),
            ) == native_entries(*old(table)).update(i, (key@, value)),
        no_key(native_entries(*old(table)), key@) ==> former is None && native_entries(
            *final(table),
        ) == native_entries(*old(table)).push((key@, value)),
{
    table.insert(key, value)
}

/// `IndexMap::get_index`: the pair at a place of the table's order, where the
/// table has that many pairs.
#[verifier::external_body]
pub(crate) fn native_table_get_index(table: &NativeTable, index: usize) -> (pair: Option<(&String, &NativeEntry)>)
    ensures
        pair is Some == (index < native_entries(*table).len()),
        pair is Some ==> pair->Some_0.0@ == native_entries(*table)[index as int].0
            && *pair->Some_0.1 == native_entries(*table)[index as int].1,
{
    table.get_index(index)
}

/// `IndexMap::get_full`: the place and the pair of a key that the table
/// holds; nothing for a key that it does not hold.
#[verifier::external_body]
pub(crate) fn native_table_get_full<'a>(table: &'a NativeTable, key: &str) -> (found: Option<(usize, &'a String, &'a NativeEntry)>)
    ensures
        found is None ==> no_key(native_entries(*table), key@),
        found is Some ==> found->Some_0.0 < native_entries(*table).len()
            && native_entries(*table)[found->Some_0.0 as int] == (key@, *found->Some_0.2)
            && found->Some_0.1@ == key@,
{
    table.get_full(key)
}

/// `IndexMap::new`: the new table holds nothing.
#[verifier::external_body]
pub(crate) fn class_table_new() -> (table: ClassTable)
    ensures
        class_entries(table) == Seq::<(Seq<char>, NativeTable)>::empty(),
{
    IndexMap::new()
}

/// `IndexMap::insert`: where the key is already in the table, its method
/// table is replaced in place and the former one is handed back; where it is
/// not, the pair is added last and nothing is handed back.
#[verifier::external_body]
pub(crate) fn class_table_insert(table: &mut ClassTable, key: String, value: NativeTable) -> (former: Option<NativeTable>)
    ensures
        forall|i: int|
            0 <= i < class_entries(*old(table)).len() && (#[trigger] class_entries(
                *old(table),
            )[i]).0 == key@ ==> former == Some(class_entries(*old(table))[i].1) && class_entries(
                *final(table),
            ) == class_entries(*old(table)).update(i, (key@, value)),
        no_key(class_entries(*old(table)), key@) ==> former is None && class_entries(
            *final(table),
        ) == class_entries(*old(table)).push((key@, value)),
{
    table.insert(key, value)
}

/// `IndexMap::get_index`: the pair at a place of the table's order, where the
/// table has that many pairs.
#[verifier::external_body]
pub(crate) fn class_table_get_index(table: &ClassTable, index: usize) -> (pair: Option<(&String, &NativeTable)>)
    ensures
        pair is Some == (index < class_entries(*table).len()),
        pair is Some ==> pair->Some_0.0@ == class_entries(*table)[index as int].0
            && *pair->Some_0.1 == class_entries(*table)[index as int].1,
{
    table.get_index(index)
}

/// `IndexMap::get_full`: the place and the pair of a key that the table
/// holds; nothing for a key that it does not hold.
#[verifier::external_body]
pub(crate) fn class_table_get_full<'a>(table: &'a ClassTable, key: &str) -> (found: Option<(usize, &'a String, &'a NativeTable)>)
    ensures
        found is None ==> no_key(class_entries(*table), key@),
        found is Some ==> found->Some_0.0 < class_entries(*table).len()
            && class_entries(*table)[found->Some_0.0 as int] == (key@, *found->Some_0.2)
            && found->Some_0.1@ == key@,
{
    table.get_full(key)
}

} // verus!
