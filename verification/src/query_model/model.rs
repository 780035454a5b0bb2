use vstd::prelude::*;
use super::str_eq;

verus! {

/// What a query does.
pub enum Directive {
    CREATE,
    MATCH,
    DELETE,
}

/// A call of a function in a query: its name, its arguments and its alias.
#[derive(Debug, Clone)]
pub struct FunctionCall {
    pub name: String,
    pub args: Vec<ValueItem>,
    pub alias: Option<String>,
}

impl FunctionCall {
    pub fn new(name: &str) -> (r: Self)
        ensures
            r.name@ == name@,
            r.args@.len() == 0,
            r.alias is None,
    {
        FunctionCall { name: name.to_owned(), args: Vec::new(), alias: None }
    }
}

/// A property of a named item: `item_name.property_name`.
#[derive(Debug, Clone)]
pub struct ItemPropertyName {
    pub item_name: String,
    pub property_name: String,
}

impl ItemPropertyName {
    pub fn new(item_name: &str, prop_name: &str) -> (r: Self)
        ensures
            r.item_name@ == item_name@,
            r.property_name@ == prop_name@,
    {
        ItemPropertyName { item_name: item_name.to_owned(), property_name: prop_name.to_owned() }
    }
}

/// A value a query evaluates: a property of an item, or an item by name.
#[derive(Debug, Clone)]
pub enum ValueItem {
    ItemPropertyName(ItemPropertyName),
    NamedItem(String),
}

/// A named text in a query result.
#[derive(Debug, Clone)]
pub struct StringResult {
    pub name: String,
    pub value: String,
}

impl StringResult {
    pub fn new(name: String, value: String) -> (r: Self)
        ensures
            r.name == name,
            r.value == value,
    {
        StringResult { name, value }
    }
}

/// A named truth value in a query result.
#[derive(Debug, Clone)]
pub struct BoolResult {
    pub name: String,
    pub value: bool,
}

impl BoolResult {
    pub fn new(name: String, value: bool) -> (r: Self)
        ensures
            r.name == name,
            r.value == value,
    {
        BoolResult { name, value }
    }
}

/// A value to evaluate, with an optional alias.
#[derive(Debug, Clone)]
pub struct EvalItem {
    pub item: ValueItem,
    pub alias: Option<String>,
}

impl EvalItem {
    pub fn new_property(item_name: &str, prop_name: &str) -> (r: Self)
        ensures
            r.item matches ValueItem::ItemPropertyName(p) && p.item_name@ == item_name@ && p.property_name@ == prop_name@,
            r.alias is None,
    {
        EvalItem { item: ValueItem::ItemPropertyName(ItemPropertyName::new(item_name, prop_name)), alias: None }
    }

    pub fn new_named_item(name: &str) -> (r: Self)
        ensures
            r.item matches ValueItem::NamedItem(n) && n@ == name@,
            r.alias is None,
    {
        EvalItem { item: ValueItem::NamedItem(name.to_owned()), alias: None }
    }
}

/// An expression of a `RETURN` clause: a function call or a value.
#[derive(Debug, Clone)]
pub enum EvalScopeExpression {
    FunctionCall(FunctionCall),
    Item(EvalItem),
}

/// The expressions of a `RETURN` clause.
#[derive(Debug, Clone)]
pub struct EvalScopeClause {
    pub expressions: Vec<EvalScopeExpression>,
}

/// The expression is the item named `*`.
pub open spec fn is_wildcard(e: EvalScopeExpression) -> bool {
    e matches EvalScopeExpression::Item(item) && (item.item matches ValueItem::NamedItem(ni) && ni@ == "*"@)
}

/// The expression calls `sum`, `collect` or `count`.
pub open spec fn is_aggregation(e: EvalScopeExpression) -> bool {
    e matches EvalScopeExpression::FunctionCall(f) && (f.name@ == "sum"@ || f.name@ == "collect"@ || f.name@
        == "count"@)
}

impl Default for EvalScopeClause {
    fn default() -> (r: Self)
        ensures
            r.expressions@.len() == 0,
    {
        Self::new()
    }
}

impl EvalScopeClause {
    pub fn new() -> (r: Self)
        ensures
            r.expressions@.len() == 0,
    {
        EvalScopeClause { expressions: Vec::new() }
    }

    pub fn new_expression(expressions: Vec<EvalScopeExpression>) -> (r: Self)
        ensures
            r.expressions == expressions,
    {
        EvalScopeClause { expressions }
    }

    /// Whether some expression is the item `*`.
    pub fn has_wildcard(&self) -> (r: bool)
        ensures
            r == exists|i: int| 0 <= i < self.expressions@.len() && is_wildcard(#[trigger] self.expressions@[i]),
    {
        let mut i: usize = 0;
        while i < self.expressions.len()
            invariant
                i <= self.expressions@.len(),
                forall|j: int| 0 <= j < i ==> !is_wildcard(#[trigger] self.expressions@[j]),
            decreases self.expressions@.len() - i,
        {
            let exp = &self.expressions[i];
            if let EvalScopeExpression::Item(item) = exp {
                if let ValueItem::NamedItem(ni) = &item.item {
                    if str_eq(ni.as_str(), "*") {
                        return true;
                    }
                }
            }
            i = i + 1;
        }
        false
    }

    /// Whether some expression calls an aggregation function.
    pub fn contains_aggregation_function(&self) -> (r: bool)
        ensures
            r == exists|i: int| 0 <= i < self.expressions@.len() && is_aggregation(#[trigger] self.expressions@[i]),
    {
        let mut i: usize = 0;
        while i < self.expressions.len()
            invariant
                i <= self.expressions@.len(),
                forall|j: int| 0 <= j < i ==> !is_aggregation(#[trigger] self.expressions@[j]),
            decreases self.expressions@.len() - i,
        {
            let exp = &self.expressions[i];
            if let EvalScopeExpression::FunctionCall(func) = exp {
                let name = func.name.as_str();
                if str_eq(name, "sum") || str_eq(name, "collect") || str_eq(name, "count") {
                    return true;
                }
            }
            i = i + 1;
        }
        false
    }
}

/// A comparison operator.
pub enum Operator {
    Equal,
    Inferior,
    Superior,
    InferiorOrEqual,
    SuperiorOrEqual,
}

} // verus!
