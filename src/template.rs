use vstd::prelude::*;

verus! {

/// The declared type of a template option.
#[derive(Clone, Copy, Debug, PartialEq, Eq, Structural)]
pub enum OptionType {
    String,
    Number,
    Integer,
    Bool,
    File,
    Image,
}

/// A text file handed to the template: its name, the path as given, and its text.
#[derive(Clone, Debug, PartialEq, Eq)]
pub struct FileData {
    pub filename: String,
    pub path: String,
    pub contents: String,
}

/// The bytes of an image handed to the model, with the path it was read from.
#[derive(Clone, Debug, PartialEq, Eq)]
pub struct ImageData {
    pub path: String,
    pub data: Vec<u8>,
}

pub struct ImageView {
    pub path: Seq<char>,
    pub data: Seq<u8>,
}

impl View for ImageData {
    type V = ImageView;

    open spec fn view(&self) -> ImageView {
        ImageView { path: self.path@, data: self.data@ }
    }
}

/// One value of the evaluation context that is not a list. A number keeps the
/// decimal text it was given in.
#[derive(Clone, Debug, PartialEq, Eq)]
pub enum Scalar {
    Bool(bool),
    Integer(i64),
    Number(String),
    String(String),
    File(FileData),
}

/// A value of the evaluation context: null, a scalar, or a list of scalars.
#[derive(Clone, Debug, PartialEq, Eq)]
pub enum Value {
    Null,
    Scalar(Scalar),
    Array(Vec<Scalar>),
}

pub enum ValueView {
    Null,
    Scalar(Scalar),
    Array(Seq<Scalar>),
}

impl View for Value {
    type V = ValueView;

    open spec fn view(&self) -> ValueView {
        match self {
            Value::Null => ValueView::Null,
            Value::Scalar(s) => ValueView::Scalar(*s),
            Value::Array(a) => ValueView::Array(a@),
        }
    }
}

/// A caller-supplied value for an option, before it is checked against the
/// option's type: the text of a token, a file that was read, or an image that was read.
#[derive(Clone, Debug, PartialEq, Eq)]
pub enum RawValue {
    Text(String),
    File(FileData),
    Image(ImageData),
}

/// One declared option of a template.
#[derive(Clone, Debug, PartialEq, Eq)]
pub struct PromptOption {
    pub name: String,
    pub option_type: OptionType,
    pub array: bool,
    pub optional: bool,
    pub default: Option<Value>,
    pub description: String,
}

pub fn copy_file_data(f: &FileData) -> (r: FileData)
    ensures
        r == *f,
{
    FileData {
        filename: f.filename.clone(),
        path: f.path.clone(),
        contents: f.contents.clone(),
    }
}

pub fn copy_scalar(s: &Scalar) -> (r: Scalar)
    ensures
        r == *s,
{
    match s {
        Scalar::Bool(b) => Scalar::Bool(*b),
        Scalar::Integer(i) => Scalar::Integer(*i),
        Scalar::Number(t) => Scalar::Number(t.clone()),
        Scalar::String(t) => Scalar::String(t.clone()),
        Scalar::File(f) => Scalar::File(copy_file_data(f)),
    }
}

pub fn copy_value(v: &Value) -> (r: Value)
    ensures
        r@ == v@,
{
    match v {
        Value::Null => Value::Null,
        Value::Scalar(s) => Value::Scalar(copy_scalar(s)),
        Value::Array(a) => {
            let mut out: Vec<Scalar> = Vec::new();
            let mut i: usize = 0;
            while i < a.len()
                invariant
                    i <= a@.len(),
                    out@ == a@.take(i as int),
                decreases a@.len() - i,
            {
                proof {
                    assert(a@.take(i + 1) =~= a@.take(i as int).push(a@[i as int]));
                }
                out.push(copy_scalar(&a[i]));
                i = i + 1;
            }
            proof {
                assert(a@.take(a@.len() as int) =~= a@);
            }
            Value::Array(out)
        },
    }
}

pub fn copy_image(d: &ImageData) -> (r: ImageData)
    ensures
        r@ == d@,
{
    ImageData { path: d.path.clone(), data: d.data.clone() }
}

} // verus!
