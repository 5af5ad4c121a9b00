//! Generation of the source text that declares the constants of the scalar
//! types.
use vstd::prelude::*;
use vstd::string::StringExecFns;

verus! {

/// Named constants for a generated source file: scalars and vectors, each as
/// its name and the text of its value.
pub struct Consts {
    /// The names of the scalar constants.
    pub name: Vec<String>,
    /// The values of the scalar constants, as text.
    pub value: Vec<String>,
    /// The names of the vector constants.
    pub vec_name: Vec<String>,
    /// The values of the vector constants, as text.
    pub vec_value: Vec<String>,
}

/// The smaller of two lengths.
pub open spec fn shorter(a: nat, b: nat) -> nat {
    if a <= b {
        a
    } else {
        b
    }
}

/// The declarations of the first `k` scalar constants.
pub open spec fn scalar_decls(name: Seq<String>, k: nat) -> Seq<char>
    decreases k,
{
    if k == 0 {
        Seq::empty()
    } else {
        scalar_decls(name, (k - 1) as nat) + "\n\tconst "@ + name[k - 1]@ + ": Self;"@
    }
}

/// The definitions of the first `k` scalar constants.
pub open spec fn scalar_defs(name: Seq<String>, value: Seq<String>, k: nat) -> Seq<char>
    decreases k,
{
    if k == 0 {
        Seq::empty()
    } else {
        scalar_defs(name, value, (k - 1) as nat) + "\n\t\t\tconst "@ + name[k - 1]@ + ": Self = "@
            + value[k - 1]@ + ";"@
    }
}

/// The declarations of the first `k` vector constants.
pub open spec fn vector_decls(name: Seq<String>, k: nat) -> Seq<char>
    decreases k,
{
    if k == 0 {
        Seq::empty()
    } else {
        vector_decls(name, (k - 1) as nat) + "\n\tconst "@ + name[k - 1]@ + ": &'static [Self];"@
    }
}

/// The definitions of the first `k` vector constants.
pub open spec fn vector_defs(name: Seq<String>, value: Seq<String>, k: nat) -> Seq<char>
    decreases k,
{
    if k == 0 {
        Seq::empty()
    } else {
        vector_defs(name, value, (k - 1) as nat) + "\n\t\t\tconst "@ + name[k - 1]@
            + ": &'static[Self] = &"@ + value[k - 1]@ + ";"@
    }
}

impl Consts {
    /// The number of scalar constants that have both a name and a value.
    pub open spec fn scalars(&self) -> nat {
        shorter(self.name@.len(), self.value@.len())
    }

    /// The number of vector constants that have both a name and a value.
    pub open spec fn vectors(&self) -> nat {
        shorter(self.vec_name@.len(), self.vec_value@.len())
    }

    /// The generated source text: the trait that declares every constant, the
    /// scalars before the vectors, then the macro that defines them for a
    /// type, then its use for the two scalar types.
    pub open spec fn text_spec(&self) -> Seq<char> {
        "use crate::float::Float;\n\npub trait FloatConst: Float {"@ + scalar_decls(
            self.name@,
            self.scalars(),
        ) + vector_decls(self.vec_name@, self.vectors())
            + "\n}\n\nmacro_rules! impl_float_const {\n\t($type:ty) => {\n\t\timpl FloatConst for $type {"@
            + scalar_defs(self.name@, self.value@, self.scalars()) + vector_defs(
            self.vec_name@,
            self.vec_value@,
            self.vectors(),
        ) + "\n\t\t}\n\t};\n}\n\nimpl_float_const!(f64);\nimpl_float_const!(f32);"@
    }

    /// An empty collection.
    pub fn new() -> (c: Self)
        ensures
            c.name@.len() == 0,
            c.value@.len() == 0,
            c.vec_name@.len() == 0,
            c.vec_value@.len() == 0,
    {
        Consts { name: Vec::new(), value: Vec::new(), vec_name: Vec::new(), vec_value: Vec::new() }
    }

    /// Adds a scalar constant named `nam` whose value is written `val`.
    pub fn add_val(&mut self, nam: &str, val: &str)
        ensures
            final(self).name@.len() == old(self).name@.len() + 1,
            final(self).name@.drop_last() == old(self).name@,
            final(self).name@.last()@ == nam@,
            final(self).value@.len() == old(self).value@.len() + 1,
            final(self).value@.drop_last() == old(self).value@,
            final(self).value@.last()@ == val@,
            final(self).vec_name == old(self).vec_name,
            final(self).vec_value == old(self).vec_value,
    {
        self.name.push(String::from_str(nam));
        self.value.push(String::from_str(val));
        assert(self.name@.drop_last() =~= old(self).name@);
        assert(self.value@.drop_last() =~= old(self).value@);
    }

    /// Adds a vector constant named `nam` whose value is written `val`.
    pub fn add_vec(&mut self, nam: &str, val: &str)
        ensures
            final(self).vec_name@.len() == old(self).vec_name@.len() + 1,
            final(self).vec_name@.drop_last() == old(self).vec_name@,
            final(self).vec_name@.last()@ == nam@,
            final(self).vec_value@.len() == old(self).vec_value@.len() + 1,
            final(self).vec_value@.drop_last() == old(self).vec_value@,
            final(self).vec_value@.last()@ == val@,
            final(self).name == old(self).name,
            final(self).value == old(self).value,
    {
        self.vec_name.push(String::from_str(nam));
        self.vec_value.push(String::from_str(val));
        assert(self.vec_name@.drop_last() =~= old(self).vec_name@);
        assert(self.vec_value@.drop_last() =~= old(self).vec_value@);
    }

    /// The source text that declares and defines the collected constants.
    pub fn save(&self) -> (text: String)
        ensures
            text@ == self.text_spec(),
    {
        let n = if self.name.len() <= self.value.len() {
            self.name.len()
        } else {
            self.value.len()
        };
        let m = if self.vec_name.len() <= self.vec_value.len() {
            self.vec_name.len()
        } else {
            self.vec_value.len()
        };
        let mut text = String::from_str(
            "use crate::float::Float;\n\npub trait FloatConst: Float {",
        );
        let ghost head = text@;
        let mut i: usize = 0;
        while i < n
            invariant
                i <= n,
                n <= self.name@.len(),
                text@ == head + scalar_decls(self.name@, i as nat),
            decreases n - i,
        {
            text.append("\n\tconst ");
            text.append(self.name[i].as_str());
            text.append(": Self;");
            i += 1;
            assert(text@ =~= head + scalar_decls(self.name@, i as nat));
        }
        let ghost head = text@;
        let mut i: usize = 0;
        while i < m
            invariant
                i <= m,
                m <= self.vec_name@.len(),
                text@ == head + vector_decls(self.vec_name@, i as nat),
            decreases m - i,
        {
            text.append("\n\tconst ");
            text.append(self.vec_name[i].as_str());
            text.append(": &'static [Self];");
            i += 1;
            assert(text@ =~= head + vector_decls(self.vec_name@, i as nat));
        }
        text.append(
            "\n}\n\nmacro_rules! impl_float_const {\n\t($type:ty) => {\n\t\timpl FloatConst for $type {",
        );
        let ghost head = text@;
        let mut i: usize = 0;
        while i < n
            invariant
                i <= n,
                n <= self.name@.len(),
                n <= self.value@.len(),
                text@ == head + scalar_defs(self.name@, self.value@, i as nat),
            decreases n - i,
        {
            text.append("\n\t\t\tconst ");
            text.append(self.name[i].as_str());
            text.append(": Self = ");
            text.append(self.value[i].as_str());
            text.append(";");
            i += 1;
            assert(text@ =~= head + scalar_defs(self.name@, self.value@, i as nat));
        }
        let ghost head = text@;
        let mut i: usize = 0;
        while i < m
            invariant
                i <= m,
                m <= self.vec_name@.len(),
                m <= self.vec_value@.len(),
                text@ == head + vector_defs(self.vec_name@, self.vec_value@, i as nat),
            decreases m - i,
        {
            text.append("\n\t\t\tconst ");
            text.append(self.vec_name[i].as_str());
            text.append(": &'static[Self] = &");
            text.append(self.vec_value[i].as_str());
            text.append(";");
            i += 1;
            assert(text@ =~= head + vector_defs(self.vec_name@, self.vec_value@, i as nat));
        }
        text.append("\n\t\t}\n\t};\n}\n\nimpl_float_const!(f64);\nimpl_float_const!(f32);");
        text
    }
}

} // verus!
