//! Runtime values.
use crate::ast::{
    dup_exprs, exprs_string, exprs_v, opt_block_string, opt_block_v, write_exprs, write_opt_block,
    BlockStatement, ExprV, ExpressionType, StmtV,
};
use crate::text::{decimal, push_decimal, push_str};
use vstd::prelude::*;

verus! {

/// A value that evaluation produces.
///
/// `ReturnValue` marks a value on its way out of a function body; a
/// `Function` refers to the scope it was created in by its index in the
/// [`crate::environment::Environment`].
#[derive(Debug, PartialEq)]
pub enum Object {
    Integer(i64),
    Boolean(bool),
    Null,
    ReturnValue(Box<Object>),
    Error(String),
    Function { parameters: Vec<ExpressionType>, body: Option<BlockStatement>, env: usize },
}

/// The model of an [`Object`].
pub enum ObjectV {
    Integer(i64),
    Boolean(bool),
    Null,
    ReturnValue(Box<ObjectV>),
    Error(Seq<char>),
    Function { parameters: Seq<ExprV>, body: Option<Seq<StmtV>>, env: usize },
}

pub open spec fn object_v(o: Object) -> ObjectV
    decreases o,
{
    match o {
        Object::Integer(v) => ObjectV::Integer(v),
        Object::Boolean(b) => ObjectV::Boolean(b),
        Object::Null => ObjectV::Null,
        Object::ReturnValue(b) => ObjectV::ReturnValue(Box::new(object_v(*b))),
        Object::Error(m) => ObjectV::Error(m@),
        Object::Function { parameters, body, env } => ObjectV::Function {
            parameters: exprs_v(parameters@),
            body: opt_block_v(body),
            env,
        },
    }
}

impl View for Object {
    type V = ObjectV;

    open spec fn view(&self) -> ObjectV {
        object_v(*self)
    }
}

/// The name of a value's type, as error messages show it.
pub open spec fn type_name_of(o: ObjectV) -> Seq<char> {
    match o {
        ObjectV::Integer(_) => "INTEGER"@,
        ObjectV::Boolean(_) => "BOOLEAN"@,
        ObjectV::Null => "NULL"@,
        ObjectV::ReturnValue(_) => "RETURN_VALUE"@,
        ObjectV::Error(_) => "ERROR"@,
        ObjectV::Function { .. } => "FUNCTION_OBJ"@,
    }
}

/// How a value is shown to the user.
pub open spec fn inspect_of(o: ObjectV) -> Seq<char>
    decreases o,
{
    match o {
        ObjectV::Integer(v) => decimal(v),
        ObjectV::Boolean(b) => if b {
            "true"@
        } else {
            "false"@
        },
        ObjectV::Null => "null"@,
        ObjectV::ReturnValue(b) => inspect_of(*b),
        ObjectV::Error(m) => m,
        ObjectV::Function { parameters, body, .. } => "fn("@ + exprs_string(parameters)
            + ") {\n "@ + opt_block_string(body) + " \n}"@,
    }
}

impl Object {
    /// A copy of the value.
    pub fn duplicate(&self) -> (r: Object)
        ensures
            r@ == self@,
        decreases self,
    {
        match self {
            Object::Integer(v) => Object::Integer(*v),
            Object::Boolean(b) => Object::Boolean(*b),
            Object::Null => Object::Null,
            Object::ReturnValue(b) => Object::ReturnValue(Box::new(b.duplicate())),
            Object::Error(m) => Object::Error(m.clone()),
            Object::Function { parameters, body, env } => Object::Function {
                parameters: dup_exprs(parameters),
                body: match body {
                    Some(b) => Some(b.duplicate()),
                    None => None,
                },
                env: *env,
            },
        }
    }

    /// The name of the value's type (see [`type_name_of`]).
    pub fn type_label(&self) -> (r: &'static str)
        ensures
            r@ == type_name_of(self@),
    {
        match self {
            Object::Integer(_) => "INTEGER",
            Object::Boolean(_) => "BOOLEAN",
            Object::Null => "NULL",
            Object::ReturnValue(_) => "RETURN_VALUE",
            Object::Error(_) => "ERROR",
            Object::Function { .. } => "FUNCTION_OBJ",
        }
    }

    /// Whether the value is an `Error`.
    pub fn is_error(&self) -> (r: bool)
        ensures
            r == (self@ is Error),
    {
        match self {
            Object::Error(_) => true,
            _ => false,
        }
    }

    fn write_inspect(&self, out: &mut String)
        ensures
            final(out)@ == old(out)@ + inspect_of(self@),
        decreases self,
    {
        match self {
            Object::Integer(v) => push_decimal(out, *v),
            Object::Boolean(b) => {
                if *b {
                    push_str(out, "true");
                } else {
                    push_str(out, "false");
                }
            },
            Object::Null => push_str(out, "null"),
            Object::ReturnValue(b) => b.write_inspect(out),
            Object::Error(m) => push_str(out, m.as_str()),
            Object::Function { parameters, body, .. } => {
                push_str(out, "fn(");
                write_exprs(parameters, out);
                push_str(out, ") {\n ");
                write_opt_block(body, out);
                push_str(out, " \n}");
            },
        }
        assert(out@ =~= old(out)@ + inspect_of(self@));
    }

    /// How the value is shown to the user (see [`inspect_of`]).
    pub fn inspect(&self) -> (r: String)
        ensures
            r@ == inspect_of(self@),
    {
        let mut out = String::new();
        self.write_inspect(&mut out);
        assert(out@ =~= inspect_of(self@));
        out
    }
}

} // verus!
