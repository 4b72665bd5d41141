use vstd::prelude::*;
use crate::error::Error;
use crate::number::{all_digits, is_digit, parse_i64, signed_text_value, unsigned_part};
use crate::template::{
    copy_file_data, copy_image, copy_value, ImageData, ImageView, OptionType, PromptOption,
    RawValue, Scalar, Value, ValueView,
};
use vstd::string::StrSliceExecFns;
use vstd::string::StringExecFns;

verus! {

/// How an option takes its values on the command line.
#[derive(Clone, Copy, Debug, PartialEq, Eq, Structural)]
pub enum ArgAction {
    /// Any number of occurrences, collected in order.
    Append,
    /// A flag without a value.
    SetTrue,
    /// At most one value.
    SetOne,
}

/// An option must be given a value unless it is a flag, has a default, or is
/// marked optional.
pub open spec fn is_required(o: PromptOption) -> bool {
    o.option_type != OptionType::Bool && o.default.is_none() && !o.optional
}

pub open spec fn action_of(o: PromptOption) -> ArgAction {
    if o.array {
        ArgAction::Append
    } else if o.option_type == OptionType::Bool {
        ArgAction::SetTrue
    } else {
        ArgAction::SetOne
    }
}

pub fn option_required(o: &PromptOption) -> (r: bool)
    ensures
        r == is_required(*o),
{
    o.option_type != OptionType::Bool && o.default.is_none() && !o.optional
}

pub fn arg_action(o: &PromptOption) -> (r: ArgAction)
    ensures
        r == action_of(*o),
{
    if o.array {
        ArgAction::Append
    } else if o.option_type == OptionType::Bool {
        ArgAction::SetTrue
    } else {
        ArgAction::SetOne
    }
}

pub open spec fn true_text() -> Seq<char> {
    seq!['t', 'r', 'u', 'e']
}

pub open spec fn false_text() -> Seq<char> {
    seq!['f', 'a', 'l', 's', 'e']
}

pub open spec fn dot_count(s: Seq<char>) -> nat
    decreases s.len(),
{
    if s.len() == 0 {
        0
    } else {
        dot_count(s.drop_last()) + if s.last() == '.' {
            1nat
        } else {
            0nat
        }
    }
}

/// Digits with at most one decimal point, and at least one digit.
pub open spec fn is_mantissa(m: Seq<char>) -> bool {
    &&& forall|i: int| 0 <= i < m.len() ==> is_digit(#[trigger] m[i]) || m[i] == '.'
    &&& dot_count(m) <= 1
    &&& m.len() > dot_count(m)
}

/// An optional sign, then one or more digits.
pub open spec fn is_exponent(e: Seq<char>) -> bool {
    let d = unsigned_part(e);
    d.len() > 0 && all_digits(d)
}

pub open spec fn is_exp_mark(c: char) -> bool {
    c == 'e' || c == 'E'
}

/// `c` is the lower-case letter `w`, or its upper-case form.
pub open spec fn same_letter(c: char, w: char) -> bool {
    c == w || (c as u32) + 32 == (w as u32)
}

/// `s` spells the lower-case word `w`, letter case aside.
pub open spec fn spells(s: Seq<char>, w: Seq<char>) -> bool {
    s.len() == w.len() && forall|i: int| 0 <= i < s.len() ==> same_letter(#[trigger] s[i], w[i])
}

/// The names of the special float values: infinity and not-a-number.
pub open spec fn is_special_float(d: Seq<char>) -> bool {
    spells(d, seq!['i', 'n', 'f']) || spells(d, seq!['i', 'n', 'f', 'i', 'n', 'i', 't', 'y'])
        || spells(d, seq!['n', 'a', 'n'])
}

/// Float text: an optional sign, then a special value name, or a mantissa and
/// optionally `e` or `E` followed by an exponent.
pub open spec fn is_decimal_text(s: Seq<char>) -> bool {
    let d = unsigned_part(s);
    ||| is_special_float(d)
    ||| (forall|k: int| 0 <= k < d.len() ==> !is_exp_mark(#[trigger] d[k])) && is_mantissa(d)
    ||| exists|k: int|
        0 <= k < d.len() && is_exp_mark(#[trigger] d[k]) && is_mantissa(d.take(k)) && is_exponent(
            d.skip(k + 1),
        )
}

/// The scalar that a raw value gives for an option of type `t`, if it fits.
pub open spec fn coerce(t: OptionType, raw: RawValue) -> Option<Scalar> {
    match raw {
        RawValue::Text(s) => match t {
            OptionType::String => if s@.len() > 0 {
                Some(Scalar::String(s))
            } else {
                None
            },
            OptionType::Number => if is_decimal_text(s@) {
                Some(Scalar::Number(s))
            } else {
                None
            },
            OptionType::Integer => match signed_text_value(s@) {
                Some(v) => if i64::MIN <= v <= i64::MAX {
                    Some(Scalar::Integer(v as i64))
                } else {
                    None
                },
                None => None,
            },
            OptionType::Bool => if s@ == true_text() {
                Some(Scalar::Bool(true))
            } else if s@ == false_text() {
                Some(Scalar::Bool(false))
            } else {
                None
            },
            _ => None,
        },
        RawValue::File(f) => if t == OptionType::File {
            Some(Scalar::File(f))
        } else {
            None
        },
        RawValue::Image(_) => None,
    }
}

fn is_mantissa_range(s: &str, from: usize, to: usize) -> (r: bool)
    requires
        from <= to <= s@.len(),
    ensures
        r == is_mantissa(s@.subrange(from as int, to as int)),
{
    let ghost d = s@.subrange(from as int, to as int);
    let mut dots: usize = 0;
    let mut i: usize = from;
    proof {
        assert(d.take(0) =~= Seq::<char>::empty());
    }
    while i < to
        invariant
            from <= i <= to <= s@.len(),
            d == s@.subrange(from as int, to as int),
            forall|j: int| 0 <= j < i - from ==> is_digit(#[trigger] d[j]) || d[j] == '.',
            dots as nat == dot_count(d.take(i - from)),
            dots <= 1,
        decreases to - i,
    {
        let c = s.get_char(i);
        proof {
            assert(d.take(i - from + 1).drop_last() =~= d.take(i - from));
            assert(d[i - from] == c);
        }
        if c == '.' {
            if dots == 1 {
                proof {
                    assert(d.take(i - from + 1).last() == '.');
                    assert(dot_count(d.take(i - from + 1)) == 2);
                    lemma_dot_count_monotone(d, i - from + 1, d.len() as int);
                    assert(d.take(d.len() as int) =~= d);
                }
                return false;
            }
            dots = dots + 1;
        } else if c < '0' || c > '9' {
            proof {
                assert(!(is_digit(d[i - from]) || d[i - from] == '.'));
            }
            return false;
        }
        i = i + 1;
    }
    proof {
        assert(d.take(i - from) =~= d);
    }
    to - from > dots
}

fn is_exponent_range(s: &str, from: usize, to: usize) -> (r: bool)
    requires
        from <= to <= s@.len(),
    ensures
        r == is_exponent(s@.subrange(from as int, to as int)),
{
    let ghost e = s@.subrange(from as int, to as int);
    let mut i: usize = from;
    if from < to {
        let c = s.get_char(from);
        if c == '+' || c == '-' {
            i = from + 1;
        }
    }
    let ghost d = s@.subrange(i as int, to as int);
    proof {
        assert(d =~= unsigned_part(e));
    }
    if i == to {
        return false;
    }
    let start = i;
    while i < to
        invariant
            start <= i <= to <= s@.len(),
            from <= start,
            d == s@.subrange(start as int, to as int),
            d == unsigned_part(s@.subrange(from as int, to as int)),
            forall|j: int| 0 <= j < i - start ==> is_digit(#[trigger] d[j]),
        decreases to - i,
    {
        let c = s.get_char(i);
        if c < '0' || c > '9' {
            proof {
                assert(!is_digit(d[i - start]));
            }
            return false;
        }
        i = i + 1;
    }
    true
}

fn spells_from(s: &str, from: usize, w: &[char]) -> (r: bool)
    requires
        from <= s@.len(),
    ensures
        r == spells(s@.skip(from as int), w@),
{
    let ghost d = s@.skip(from as int);
    let n = s.unicode_len();
    if n - from != w.len() {
        return false;
    }
    let mut i: usize = 0;
    while i < w.len()
        invariant
            n == s@.len(),
            from + w@.len() == n,
            d == s@.skip(from as int),
            i <= w@.len(),
            forall|j: int| 0 <= j < i ==> same_letter(#[trigger] d[j], w@[j]),
        decreases w@.len() - i,
    {
        let c = s.get_char(from + i);
        let l = w[i];
        if !(c == l || (c as u32) + 32 == l as u32) {
            proof {
                assert(!same_letter(d[i as int], w@[i as int]));
            }
            return false;
        }
        i = i + 1;
    }
    true
}

fn is_decimal(s: &str) -> (r: bool)
    ensures
        r == is_decimal_text(s@),
{
    if is_special_float_text(s) {
        return true;
    }
    is_finite_decimal(s)
}

fn is_special_float_text(s: &str) -> (r: bool)
    ensures
        r == is_special_float(unsigned_part(s@)),
{
    let n = s.unicode_len();
    let mut from: usize = 0;
    if n > 0 {
        let c = s.get_char(0);
        if c == '+' || c == '-' {
            from = 1;
        }
    }
    proof {
        assert(s@.skip(from as int) =~= unsigned_part(s@));
    }
    let inf = ['i', 'n', 'f'];
    let infinity = ['i', 'n', 'f', 'i', 'n', 'i', 't', 'y'];
    let nan = ['n', 'a', 'n'];
    proof {
        assert(inf@ =~= seq!['i', 'n', 'f']);
        assert(infinity@ =~= seq!['i', 'n', 'f', 'i', 'n', 'i', 't', 'y']);
        assert(nan@ =~= seq!['n', 'a', 'n']);
    }
    spells_from(s, from, inf.as_slice()) || spells_from(s, from, infinity.as_slice())
        || spells_from(s, from, nan.as_slice())
}

fn is_finite_decimal(s: &str) -> (r: bool)
    ensures
        r == ({
            let d = unsigned_part(s@);
            ||| (forall|k: int| 0 <= k < d.len() ==> !is_exp_mark(#[trigger] d[k])) && is_mantissa(d)
            ||| exists|k: int|
                0 <= k < d.len() && is_exp_mark(#[trigger] d[k]) && is_mantissa(d.take(k))
                    && is_exponent(d.skip(k + 1))
        }),
{
    let n = s.unicode_len();
    let mut from: usize = 0;
    if n > 0 {
        let c = s.get_char(0);
        if c == '+' || c == '-' {
            from = 1;
        }
    }
    let ghost d = s@.skip(from as int);
    proof {
        assert(d =~= unsigned_part(s@));
    }
    let mut k: usize = from;
    let mut found = false;
    while k < n && !found
        invariant
            from <= k <= n,
            n == s@.len(),
            d == s@.skip(from as int),
            forall|j: int| 0 <= j < k - from ==> !is_exp_mark(#[trigger] d[j]),
            found ==> k < n && is_exp_mark(d[k - from]),
        decreases n - k + (if found { 0int } else { 1int }),
    {
        let c = s.get_char(k);
        if c == 'e' || c == 'E' {
            found = true;
        } else {
            k = k + 1;
        }
    }
    let ghost m = k - from;
    proof {
        assert(s@.subrange(from as int, k as int) =~= d.take(m));
    }
    if k == n {
        proof {
            assert(d.take(m) =~= d);
        }
        return is_mantissa_range(s, from, n);
    }
    proof {
        assert(is_exp_mark(d[m]));
        assert(s@.subrange(k + 1, n as int) =~= d.skip(m + 1));
    }
    let ok = is_mantissa_range(s, from, k) && is_exponent_range(s, k + 1, n);
    proof {
        if !ok {
            assert forall|k2: int|
                0 <= k2 < d.len() && is_exp_mark(#[trigger] d[k2]) implies !(is_mantissa(d.take(k2))
                && is_exponent(d.skip(k2 + 1))) by {
                if k2 > m {
                    assert(d.take(k2)[m] == d[m]);
                }
            }
        }
    }
    ok
}

proof fn lemma_dot_count_monotone(s: Seq<char>, i: int, j: int)
    requires
        0 <= i <= j <= s.len(),
    ensures
        dot_count(s.take(i)) <= dot_count(s.take(j)),
    decreases j - i,
{
    if i < j {
        assert(s.take(i + 1).drop_last() =~= s.take(i));
        lemma_dot_count_monotone(s, i + 1, j);
    }
}

/// Checks a raw value against an option's type and turns it into a scalar.
pub fn coerce_value(t: OptionType, raw: &RawValue) -> (r: Option<Scalar>)
    ensures
        r == coerce(t, *raw),
{
    match raw {
        RawValue::Text(s) => match t {
            OptionType::String => {
                if s.as_str().unicode_len() > 0 {
                    Some(Scalar::String(s.clone()))
                } else {
                    None
                }
            },
            OptionType::Number => {
                if is_decimal(s.as_str()) {
                    Some(Scalar::Number(s.clone()))
                } else {
                    None
                }
            },
            OptionType::Integer => match parse_i64(s.as_str()) {
                Some(v) => Some(Scalar::Integer(v)),
                None => None,
            },
            OptionType::Bool => {
                proof {
                    reveal_strlit("true");
                    reveal_strlit("false");
                }
                let yes = String::from_str("true");
                let no = String::from_str("false");
                proof {
                    assert(yes@ == true_text());
                    assert(no@ == false_text());
                }
                if *s == yes {
                    Some(Scalar::Bool(true))
                } else if *s == no {
                    Some(Scalar::Bool(false))
                } else {
                    None
                }
            },
            _ => None,
        },
        RawValue::File(f) => {
            if t == OptionType::File {
                Some(Scalar::File(copy_file_data(f)))
            } else {
                None
            }
        },
        RawValue::Image(_) => None,
    }
}

pub open spec fn raw_image(r: RawValue) -> ImageView {
    match r {
        RawValue::Image(d) => d@,
        _ => ImageView { path: Seq::empty(), data: Seq::empty() },
    }
}

/// The error that binding an option to the given raw values gives, if any.
pub open spec fn option_error(o: PromptOption, vals: Seq<RawValue>) -> Option<Error> {
    if vals.len() == 0 {
        if is_required(o) {
            Some(Error::MissingRequiredOption(o.name))
        } else {
            None
        }
    } else if !o.array && vals.len() > 1 {
        Some(Error::ArgParseFailure(o.name))
    } else if o.option_type == OptionType::Image {
        if forall|j: int| 0 <= j < vals.len() ==> (#[trigger] vals[j]) is Image {
            None
        } else {
            Some(Error::ArgParseFailure(o.name))
        }
    } else if forall|j: int| 0 <= j < vals.len() ==> #[trigger] coerce(o.option_type, vals[j]) is Some {
        None
    } else {
        Some(Error::ArgParseFailure(o.name))
    }
}

/// The context value of an option that binds without error (images aside):
/// with no value given, `false` for a flag, else the default, else an empty list
/// or null; otherwise the coerced values.
pub open spec fn option_value(o: PromptOption, vals: Seq<RawValue>) -> ValueView {
    if vals.len() == 0 {
        if o.option_type == OptionType::Bool && !o.array {
            ValueView::Scalar(Scalar::Bool(false))
        } else {
            match o.default {
                Some(d) => d@,
                None => if o.array {
                    ValueView::Array(Seq::empty())
                } else {
                    ValueView::Null
                },
            }
        }
    } else if o.array {
        ValueView::Array(vals.map_values(|r: RawValue| coerce(o.option_type, r).unwrap()))
    } else {
        ValueView::Scalar(coerce(o.option_type, vals[0]).unwrap())
    }
}

/// The error of the first option, in declaration order, that does not bind.
pub open spec fn first_error(opts: Seq<PromptOption>, vals: Seq<Seq<RawValue>>) -> Option<Error>
    decreases opts.len(),
{
    if opts.len() == 0 {
        None
    } else {
        match first_error(opts.drop_last(), vals.take(opts.len() - 1)) {
            Some(e) => Some(e),
            None => option_error(opts.last(), vals[opts.len() - 1]),
        }
    }
}

/// The evaluation context: one entry per option that is not an image, in
/// declaration order.
pub open spec fn bound_context(opts: Seq<PromptOption>, vals: Seq<Seq<RawValue>>) -> Seq<
    (Seq<char>, ValueView),
>
    decreases opts.len(),
{
    if opts.len() == 0 {
        Seq::empty()
    } else {
        let prev = bound_context(opts.drop_last(), vals.take(opts.len() - 1));
        if opts.last().option_type == OptionType::Image {
            prev
        } else {
            prev.push((opts.last().name@, option_value(opts.last(), vals[opts.len() - 1])))
        }
    }
}

/// The images of all image options, in declaration order and then in the order given.
pub open spec fn bound_images(opts: Seq<PromptOption>, vals: Seq<Seq<RawValue>>) -> Seq<ImageView>
    decreases opts.len(),
{
    if opts.len() == 0 {
        Seq::empty()
    } else {
        let prev = bound_images(opts.drop_last(), vals.take(opts.len() - 1));
        if opts.last().option_type == OptionType::Image {
            prev + vals[opts.len() - 1].map_values(|r: RawValue| raw_image(r))
        } else {
            prev
        }
    }
}

pub open spec fn context_view(c: Seq<(String, Value)>) -> Seq<(Seq<char>, ValueView)> {
    c.map_values(|e: (String, Value)| (e.0@, e.1@))
}

pub open spec fn images_view(i: Seq<ImageData>) -> Seq<ImageView> {
    i.map_values(|d: ImageData| d@)
}

/// The result of binding: the evaluation context and the images set apart from it.
#[derive(Clone, Debug, PartialEq, Eq)]
pub struct Binding {
    pub context: Vec<(String, Value)>,
    pub images: Vec<ImageData>,
}

/// Binds one option to the raw values given for it, adding its entry to the
/// context, or its images to the image list.
pub fn add_val_to_context(
    context: &mut Vec<(String, Value)>,
    images: &mut Vec<ImageData>,
    option: &PromptOption,
    vals: &Vec<RawValue>,
) -> (r: Result<(), Error>)
    ensures
        r == match option_error(*option, vals@) {
            Some(e) => Err::<(), Error>(e),
            None => Ok(()),
        },
        r is Ok && option.option_type == OptionType::Image ==> {
            &&& context_view(final(context)@) == context_view(old(context)@)
            &&& images_view(final(images)@) == images_view(old(images)@) + vals@.map_values(
                |x: RawValue| raw_image(x),
            )
        },
        r is Ok && option.option_type != OptionType::Image ==> {
            &&& context_view(final(context)@) == context_view(old(context)@).push(
                (option.name@, option_value(*option, vals@)),
            )
            &&& images_view(final(images)@) == images_view(old(images)@)
        },
{
    let n = vals.len();
    let t = option.option_type;
    if n == 0 {
        if option_required(option) {
            return Err(Error::MissingRequiredOption(option.name.clone()));
        }
        if t == OptionType::Image {
            proof {
                assert(vals@.map_values(|x: RawValue| raw_image(x)) =~= Seq::<ImageView>::empty());
                assert(images_view(images@) + Seq::<ImageView>::empty() =~= images_view(images@));
            }
            return Ok(());
        }
        let v = if t == OptionType::Bool && !option.array {
            Value::Scalar(Scalar::Bool(false))
        } else {
            match &option.default {
                Some(d) => copy_value(d),
                None => if option.array {
                    Value::Array(Vec::new())
                } else {
                    Value::Null
                },
            }
        };
        proof {
            if option.array && option.default.is_none() && !(t == OptionType::Bool && !option.array) {
                assert(v@ == ValueView::Array(Seq::<Scalar>::empty()));
            }
        }
        let ghost before = context@;
        context.push((option.name.clone(), v));
        proof {
            assert(context_view(context@) =~= context_view(before).push(
                (option.name@, option_value(*option, vals@)),
            ));
        }
        return Ok(());
    }
    if !option.array && n > 1 {
        return Err(Error::ArgParseFailure(option.name.clone()));
    }
    if t == OptionType::Image {
        let ghost before = images_view(images@);
        let mut i: usize = 0;
        while i < n
            invariant
                i <= n,
                n == vals@.len(),
                n > 0,
                option.array || n == 1,
                option.option_type == OptionType::Image,
                forall|j: int| 0 <= j < i ==> (#[trigger] vals@[j]) is Image,
                images_view(images@) == before + vals@.take(i as int).map_values(
                    |x: RawValue| raw_image(x),
                ),
            decreases n - i,
        {
            match &vals[i] {
                RawValue::Image(d) => {
                    let ghost prev = images@;
                    images.push(copy_image(d));
                    proof {
                        assert(vals@.take(i + 1).map_values(|x: RawValue| raw_image(x))
                            =~= vals@.take(i as int).map_values(|x: RawValue| raw_image(x)).push(
                            raw_image(vals@[i as int]),
                        ));
                        assert(images_view(images@) =~= images_view(prev).push(d@));
                    }
                },
                _ => {
                    proof {
                        assert(!(vals@[i as int] is Image));
                        assert(option_error(*option, vals@) == Some(Error::ArgParseFailure(option.name)));
                    }
                    return Err(Error::ArgParseFailure(option.name.clone()));
                },
            }
            i = i + 1;
        }
        proof {
            assert(vals@.take(n as int) =~= vals@);
        }
        return Ok(());
    }
    let mut scalars: Vec<Scalar> = Vec::new();
    let mut i: usize = 0;
    while i < n
        invariant
            i <= n,
            n == vals@.len(),
            n > 0,
            option.array || n == 1,
            t == option.option_type,
            t != OptionType::Image,
            forall|j: int| 0 <= j < i ==> #[trigger] coerce(t, vals@[j]) is Some,
            scalars@ == vals@.take(i as int).map_values(|x: RawValue| coerce(t, x).unwrap()),
        decreases n - i,
    {
        match coerce_value(t, &vals[i]) {
            Some(s) => {
                proof {
                    assert(vals@.take(i + 1).map_values(|x: RawValue| coerce(t, x).unwrap())
                        =~= vals@.take(i as int).map_values(|x: RawValue| coerce(t, x).unwrap()).push(s));
                }
                scalars.push(s);
            },
            None => {
                proof {
                    assert(!(coerce(t, vals@[i as int]) is Some));
                    assert(option_error(*option, vals@) == Some(Error::ArgParseFailure(option.name)));
                }
                return Err(Error::ArgParseFailure(option.name.clone()));
            },
        }
        i = i + 1;
    }
    proof {
        assert(vals@.take(n as int) =~= vals@);
    }
    let v = if option.array {
        Value::Array(scalars)
    } else {
        Value::Scalar(scalars.remove(0))
    };
    let ghost before = context@;
    context.push((option.name.clone(), v));
    proof {
        assert(context_view(context@) =~= context_view(before).push(
            (option.name@, option_value(*option, vals@)),
        ));
    }
    Ok(())
}

proof fn lemma_first_error_stays(opts: Seq<PromptOption>, vals: Seq<Seq<RawValue>>, k: int, m: int)
    requires
        0 <= k <= m <= opts.len(),
        opts.len() == vals.len(),
        first_error(opts.take(k), vals.take(k)) is Some,
    ensures
        first_error(opts.take(m), vals.take(m)) == first_error(opts.take(k), vals.take(k)),
    decreases m - k,
{
    if k < m {
        assert(opts.take(k + 1).drop_last() =~= opts.take(k));
        assert(vals.take(k + 1).take(k) =~= vals.take(k));
        lemma_first_error_stays(opts, vals, k + 1, m);
    }
}

/// `r` is the outcome of binding `vals` to `opts`: the first failing option's
/// error, or the bound context and images.
pub open spec fn binds_to(
    opts: Seq<PromptOption>,
    vals: Seq<Seq<RawValue>>,
    r: Result<Binding, Error>,
) -> bool {
    match first_error(opts, vals) {
        Some(e) => r == Err::<Binding, Error>(e),
        None => r is Ok && context_view(r->Ok_0.context@) == bound_context(opts, vals)
            && images_view(r->Ok_0.images@) == bound_images(opts, vals),
    }
}

/// A mandatory option that is given no value makes binding fail with
/// `MissingRequiredOption` naming it, unless an earlier option failed first.
pub proof fn lemma_missing_required(opts: Seq<PromptOption>, vals: Seq<Seq<RawValue>>, i: int)
    requires
        opts.len() == vals.len(),
        0 <= i < opts.len(),
        is_required(opts[i]),
        vals[i].len() == 0,
        first_error(opts.take(i), vals.take(i)) is None,
    ensures
        first_error(opts, vals) == Some(Error::MissingRequiredOption(opts[i].name)),
{
    assert(opts.take(i + 1).drop_last() =~= opts.take(i));
    assert(vals.take(i + 1).take(i) =~= vals.take(i));
    lemma_first_error_stays(opts, vals, i + 1, opts.len() as int);
    assert(opts.take(opts.len() as int) =~= opts);
    assert(vals.take(vals.len() as int) =~= vals);
}

/// A flag (a non-list `Bool` option) that is not given is `false` in the
/// context: its entry is never missing.
pub proof fn lemma_flag_omitted_false(opts: Seq<PromptOption>, vals: Seq<Seq<RawValue>>, i: int)
    requires
        opts.len() == vals.len(),
        0 <= i < opts.len(),
        opts[i].option_type == OptionType::Bool,
        !opts[i].array,
        vals[i].len() == 0,
    ensures
        bound_context(opts, vals).contains((opts[i].name@, ValueView::Scalar(Scalar::Bool(false)))),
    decreases opts.len(),
{
    let n = opts.len();
    let prev = bound_context(opts.drop_last(), vals.take(n - 1));
    let entry = (opts[i].name@, ValueView::Scalar(Scalar::Bool(false)));
    if i == n - 1 {
        assert(bound_context(opts, vals) == prev.push(entry));
        assert(bound_context(opts, vals)[prev.len() as int] == entry);
    } else {
        lemma_flag_omitted_false(opts.drop_last(), vals.take(n - 1), i);
        let k = choose|k: int| 0 <= k < prev.len() && prev[k] == entry;
        if opts.last().option_type != OptionType::Image {
            assert(bound_context(opts, vals)[k] == entry);
        }
    }
}

/// Binding the same input twice gives the same context and images, or the same error.
pub proof fn lemma_binding_deterministic(
    opts: Seq<PromptOption>,
    vals: Seq<Seq<RawValue>>,
    r1: Result<Binding, Error>,
    r2: Result<Binding, Error>,
)
    requires
        binds_to(opts, vals, r1),
        binds_to(opts, vals, r2),
    ensures
        r1 is Ok <==> r2 is Ok,
        r1 is Err ==> r1 == r2,
        r1 is Ok ==> context_view(r1->Ok_0.context@) == context_view(r2->Ok_0.context@)
            && images_view(r1->Ok_0.images@) == images_view(r2->Ok_0.images@),
{
}

/// Binds the values given for each declared option (in declaration order)
/// into an evaluation context and a list of images.
pub fn parse_template_args(options: &Vec<PromptOption>, supplied: &Vec<Vec<RawValue>>) -> (r: Result<
    Binding,
    Error,
>)
    requires
        supplied@.len() == options@.len(),
    ensures
        binds_to(options@, supplied@.map_values(|v: Vec<RawValue>| v@), r),
{
    let ghost vals = supplied@.map_values(|v: Vec<RawValue>| v@);
    let n = options.len();
    let mut context: Vec<(String, Value)> = Vec::new();
    let mut images: Vec<ImageData> = Vec::new();
    let mut i: usize = 0;
    proof {
        assert(options@.take(0) =~= Seq::<PromptOption>::empty());
        assert(context_view(context@) =~= Seq::<(Seq<char>, ValueView)>::empty());
        assert(images_view(images@) =~= Seq::<ImageView>::empty());
    }
    while i < n
        invariant
            i <= n,
            n == options@.len(),
            n == supplied@.len(),
            vals == supplied@.map_values(|v: Vec<RawValue>| v@),
            first_error(options@.take(i as int), vals.take(i as int)) is None,
            context_view(context@) == bound_context(options@.take(i as int), vals.take(i as int)),
            images_view(images@) == bound_images(options@.take(i as int), vals.take(i as int)),
        decreases n - i,
    {
        proof {
            assert(options@.take(i + 1).drop_last() =~= options@.take(i as int));
            assert(vals.take(i + 1).take(i as int) =~= vals.take(i as int));
            assert(options@.take(i + 1).last() == options@[i as int]);
            assert(vals.take(i + 1)[i as int] == supplied@[i as int]@);
        }
        match add_val_to_context(&mut context, &mut images, &options[i], &supplied[i]) {
            Ok(()) => {},
            Err(e) => {
                proof {
                    lemma_first_error_stays(options@, vals, i + 1, n as int);
                    assert(options@.take(n as int) =~= options@);
                    assert(vals.take(n as int) =~= vals);
                }
                return Err(e);
            },
        }
        i = i + 1;
    }
    proof {
        assert(options@.take(n as int) =~= options@);
        assert(vals.take(n as int) =~= vals);
    }
    Ok(Binding { context, images })
}

} // verus!
