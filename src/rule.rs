use vstd::prelude::*;

use crate::hint::{FUNCTOR_HINT, INDEX_EXPR_HINT, UNSAFE_HINT};

verus! {

/// The closed set of violation categories.
#[derive(PartialEq, Eq, Structural, Debug, Clone, Copy, Hash)]
pub enum RuleCode {
    Unsafe,
    UseUnsafe,
    Unwrap,
    Expect,
    IndexExpression,
}

/// A violation category with its description and an optional remediation hint.
#[derive(Debug, Clone, Copy)]
pub struct Rule {
    pub code: RuleCode,
    pub desc: &'static str,
    pub hint: Option<&'static str>,
}

/// The stable name of a rule code, as used for listing and suppression.
pub open spec fn code_name(code: RuleCode) -> Seq<char> {
    match code {
        RuleCode::Unsafe => "Unsafe"@,
        RuleCode::UseUnsafe => "UseUnsafe"@,
        RuleCode::Unwrap => "Unwrap"@,
        RuleCode::Expect => "Expect"@,
        RuleCode::IndexExpression => "IndexExpression"@,
    }
}

/// The catalog entry of each rule code.
pub open spec fn rule_of(code: RuleCode) -> Rule {
    match code {
        RuleCode::Unsafe => Rule { code, desc: "Unsafe keyword is forbidden.", hint: None },
        RuleCode::UseUnsafe => Rule {
            code,
            desc: "using unsafe identifier like function or macro is forbidden.",
            hint: Some(UNSAFE_HINT),
        },
        RuleCode::Unwrap => Rule {
            code,
            desc: "Unwrap call may panic.",
            hint: Some(FUNCTOR_HINT),
        },
        RuleCode::Expect => Rule {
            code,
            desc: "expect call may panic.",
            hint: Some(FUNCTOR_HINT),
        },
        RuleCode::IndexExpression => Rule {
            code,
            desc: "index operation may panic, use get method instead.",
            hint: Some(INDEX_EXPR_HINT),
        },
    }
}

/// Every rule code, in catalog order.
pub open spec fn all_codes() -> Seq<RuleCode> {
    seq![
        RuleCode::Unsafe,
        RuleCode::UseUnsafe,
        RuleCode::Unwrap,
        RuleCode::Expect,
        RuleCode::IndexExpression,
    ]
}

impl RuleCode {
    /// The stable name of this code.
    pub fn to_string(&self) -> (r: String)
        ensures
            r@ == code_name(*self),
    {
        match self {
            RuleCode::Unsafe => String::from_str("Unsafe"),
            RuleCode::UseUnsafe => String::from_str("UseUnsafe"),
            RuleCode::Unwrap => String::from_str("Unwrap"),
            RuleCode::Expect => String::from_str("Expect"),
            RuleCode::IndexExpression => String::from_str("IndexExpression"),
        }
    }

    /// The catalog entry of this code.
    pub fn rule(&self) -> (r: Rule)
        ensures
            r == rule_of(*self),
    {
        match self {
            RuleCode::Unsafe => Rule { code: *self, desc: "Unsafe keyword is forbidden.", hint: None },
            RuleCode::UseUnsafe => Rule {
                code: *self,
                desc: "using unsafe identifier like function or macro is forbidden.",
                hint: Some(UNSAFE_HINT),
            },
            RuleCode::Unwrap => Rule {
                code: *self,
                desc: "Unwrap call may panic.",
                hint: Some(FUNCTOR_HINT),
            },
            RuleCode::Expect => Rule {
                code: *self,
                desc: "expect call may panic.",
                hint: Some(FUNCTOR_HINT),
            },
            RuleCode::IndexExpression => Rule {
                code: *self,
                desc: "index operation may panic, use get method instead.",
                hint: Some(INDEX_EXPR_HINT),
            },
        }
    }
}

/// The whole rule catalog, one entry per code, in catalog order.
pub fn rules() -> (r: Vec<Rule>)
    ensures
        r@.len() == all_codes().len(),
        forall|k: int| 0 <= k < r@.len() ==> r@[k] == rule_of(#[trigger] all_codes()[k]),
{
    let r = vec![
        RuleCode::Unsafe.rule(),
        RuleCode::UseUnsafe.rule(),
        RuleCode::Unwrap.rule(),
        RuleCode::Expect.rule(),
        RuleCode::IndexExpression.rule(),
    ];
    r
}

} // verus!
