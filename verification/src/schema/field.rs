//! The fields of a configuration struct: what kind of entry each reads, and
//! the attributes that set its key, default, laziness and kind.
use vstd::prelude::*;

use crate::schema::{
    is_ident, path_is_ident, text_is, ArgsDecl, AttrDecl, FieldDecl, GenericArgDecl, MetaDecl,
    PathDecl, SegmentDecl, TypeDecl,
};

verus! {

/// What kind of entry a field reads.
#[derive(Debug, Clone, Copy, PartialEq, Eq, Hash, Structural)]
pub enum FieldType {
    GroupKey,
    Config,
    Group,
    AnyGroup,
    Flatten,
}

/// The field types that the kind of a field can be told from.
#[derive(Debug, Clone, Copy, PartialEq, Eq, Hash, Structural)]
pub enum WellKnownType {
    Key,
    ConfigValue,
    ConfigSet,
    ConfigList,
    ConfigAcl,
    HashMap,
}

/// The well-known type whose last path segment is `name`.
pub open spec fn wkt_named(name: Seq<char>) -> Option<WellKnownType> {
    if name == "Key"@ {
        Some(WellKnownType::Key)
    } else if name == "ConfigValue"@ {
        Some(WellKnownType::ConfigValue)
    } else if name == "ConfigSet"@ {
        Some(WellKnownType::ConfigSet)
    } else if name == "ConfigList"@ {
        Some(WellKnownType::ConfigList)
    } else if name == "ConfigAcl"@ {
        Some(WellKnownType::ConfigAcl)
    } else if name == "HashMap"@ {
        Some(WellKnownType::HashMap)
    } else {
        None
    }
}

/// The segment has no arguments: none at all, or an empty `<>`.
pub open spec fn args_empty(a: ArgsDecl) -> bool {
    match a {
        ArgsDecl::NoArgs => true,
        ArgsDecl::AngleBracketed { args, .. } => args@.len() == 0,
        ArgsDecl::Parenthesized => false,
    }
}

/// The path before the last segment is where the type lives: nothing or
/// `config` for the configuration types, nothing, `collections` or
/// `std::collections` for `HashMap`; none of those segments has arguments
/// (an empty `<>` counts as none).
pub open spec fn leading_path_ok(w: WellKnownType, segs: Seq<SegmentDecl>) -> bool {
    let n = segs.len();
    &&& forall|i: int| 0 <= i < n - 1 ==> args_empty(#[trigger] segs[i].arguments)
    &&& match w {
        WellKnownType::HashMap => n <= 3 && (n >= 2 ==> segs[n - 2].ident@ == "collections"@) && (n
            == 3 ==> segs[0].ident@ == "std"@),
        _ => n <= 2 && (n == 2 ==> segs[0].ident@ == "config"@),
    }
}

/// `t` is the type `Key` (possibly written `config::Key`).
pub open spec fn is_key_type(t: TypeDecl) -> bool {
    match t {
        TypeDecl::Path { qself, path } => {
            let segs = path.segments@;
            &&& !qself
            &&& segs.len() > 0
            &&& segs.last().ident@ == "Key"@
            &&& leading_path_ok(WellKnownType::Key, segs)
            &&& segs.last().arguments is NoArgs
        },
        TypeDecl::Other => false,
    }
}

/// The arguments are those the type takes: none for `Key`, one type for the
/// configuration types, `Key` and a type for `HashMap`, never written with
/// `::<`.
pub open spec fn arguments_ok(w: WellKnownType, a: ArgsDecl) -> bool {
    match w {
        WellKnownType::Key => a is NoArgs,
        WellKnownType::HashMap => match a {
            ArgsDecl::AngleBracketed { colon2, args } => {
                &&& args@.len() == 2
                &&& args@[0] matches GenericArgDecl::Type(t) && is_key_type(t)
                &&& args@[1] is Type
                &&& !colon2
            },
            _ => false,
        },
        _ => match a {
            ArgsDecl::AngleBracketed { colon2, args } => args@.len() == 1 && args@[0] is Type
                && !colon2,
            _ => false,
        },
    }
}

/// The well-known type that `t` is, if it is one.
pub open spec fn parse_type_spec(t: TypeDecl) -> Option<WellKnownType> {
    match t {
        TypeDecl::Path { qself, path } => {
            let segs = path.segments@;
            if qself || segs.len() == 0 {
                None
            } else {
                match wkt_named(segs.last().ident@) {
                    Some(w) => if leading_path_ok(w, segs) && arguments_ok(w, segs.last().arguments) {
                        Some(w)
                    } else {
                        None
                    },
                    None => None,
                }
            }
        },
        TypeDecl::Other => None,
    }
}

fn wkt_of_name(name: &String) -> (res: Option<WellKnownType>)
    ensures
        res == wkt_named(name@),
{
    let s = name.as_str();
    if text_is(s, "Key") {
        Some(WellKnownType::Key)
    } else if text_is(s, "ConfigValue") {
        Some(WellKnownType::ConfigValue)
    } else if text_is(s, "ConfigSet") {
        Some(WellKnownType::ConfigSet)
    } else if text_is(s, "ConfigList") {
        Some(WellKnownType::ConfigList)
    } else if text_is(s, "ConfigAcl") {
        Some(WellKnownType::ConfigAcl)
    } else if text_is(s, "HashMap") {
        Some(WellKnownType::HashMap)
    } else {
        None
    }
}

impl WellKnownType {
    /// Whether the path before the last of `segments` is where this type
    /// lives.
    pub fn is_expected_leading_path(&self, segments: &Vec<SegmentDecl>) -> (res: bool)
        ensures
            res == leading_path_ok(*self, segments@),
    {
        let n = segments.len();
        let mut i: usize = 0;
        while n > 0 && i < n - 1
            invariant
                n == segments@.len(),
                i <= n,
                forall|j: int| 0 <= j < i ==> args_empty(#[trigger] segments@[j].arguments),
            decreases n - i,
        {
            let empty = match &segments[i].arguments {
                ArgsDecl::NoArgs => true,
                ArgsDecl::AngleBracketed { args, .. } => args.len() == 0,
                ArgsDecl::Parenthesized => false,
            };
            if !empty {
                return false;
            }
            i = i + 1;
        }
        match self {
            WellKnownType::HashMap => {
                n <= 3 && (n < 2 || text_is(segments[n - 2].ident.as_str(), "collections")) && (n
                    != 3 || text_is(segments[0].ident.as_str(), "std"))
            },
            _ => n <= 2 && (n != 2 || text_is(segments[0].ident.as_str(), "config")),
        }
    }

    /// Whether `arguments` are those this type takes.
    pub fn is_expected_arguments(&self, arguments: &ArgsDecl) -> (res: bool)
        ensures
            res == arguments_ok(*self, *arguments),
    {
        match self {
            WellKnownType::Key => arguments matches ArgsDecl::NoArgs,
            WellKnownType::HashMap => match arguments {
                ArgsDecl::AngleBracketed { colon2, args } => {
                    if args.len() != 2 {
                        return false;
                    }
                    // the first argument must be `Key` itself
                    let first_ok = match &args[0] {
                        GenericArgDecl::Type(t) => key_type_exec(t),
                        GenericArgDecl::Other => false,
                    };
                    first_ok && (args[1] matches GenericArgDecl::Type(_)) && !*colon2
                },
                _ => false,
            },
            _ => match arguments {
                ArgsDecl::AngleBracketed { colon2, args } => args.len() == 1 && (
                args[0] matches GenericArgDecl::Type(_)) && !*colon2,
                _ => false,
            },
        }
    }

    /// The well-known type that `ty` is, if it is one.
    pub fn parse_type(ty: &TypeDecl) -> (res: Option<WellKnownType>)
        ensures
            res == parse_type_spec(*ty),
    {
        match ty {
            TypeDecl::Path { qself, path } => {
                if *qself || path.segments.len() == 0 {
                    return None;
                }
                let last = &path.segments[path.segments.len() - 1];
                match wkt_of_name(&last.ident) {
                    Some(w) => {
                        if w.is_expected_leading_path(&path.segments) && w.is_expected_arguments(&last.arguments) {
                            Some(w)
                        } else {
                            None
                        }
                    },
                    None => None,
                }
            },
            TypeDecl::Other => None,
        }
    }

    /// The well-known type of `field`'s type, if it is one.
    pub fn parse(field: &FieldDecl) -> (res: Option<WellKnownType>)
        ensures
            res == parse_type_spec(field.ty),
    {
        Self::parse_type(&field.ty)
    }

    /// The kind of entry a field of this type reads.
    pub fn parser(&self) -> (res: FieldType)
        ensures
            res == wkt_parser(*self),
    {
        match self {
            WellKnownType::Key => FieldType::GroupKey,
            WellKnownType::ConfigValue => FieldType::Config,
            WellKnownType::ConfigSet => FieldType::Config,
            WellKnownType::ConfigList => FieldType::Config,
            WellKnownType::ConfigAcl => FieldType::Config,
            WellKnownType::HashMap => FieldType::AnyGroup,
        }
    }

    /// Whether the default of a field of this type can be built in a
    /// constant: lists and access control lists can.
    pub fn is_config_const_new(&self) -> (res: bool)
        ensures
            res == (*self == WellKnownType::ConfigList || *self == WellKnownType::ConfigAcl),
    {
        match self {
            WellKnownType::ConfigList | WellKnownType::ConfigAcl => true,
            _ => false,
        }
    }

    /// Whether a field of this type with a given default can be built in a
    /// constant: none can.
    pub fn is_config_const_new_with_default(&self) -> (res: bool)
        ensures
            !res,
    {
        false
    }
}

pub open spec fn wkt_parser(w: WellKnownType) -> FieldType {
    match w {
        WellKnownType::Key => FieldType::GroupKey,
        WellKnownType::HashMap => FieldType::AnyGroup,
        _ => FieldType::Config,
    }
}

fn key_type_exec(t: &TypeDecl) -> (res: bool)
    ensures
        res == is_key_type(*t),
{
    match t {
        TypeDecl::Path { qself, path } => {
            if *qself || path.segments.len() == 0 {
                return false;
            }
            let last = &path.segments[path.segments.len() - 1];
            text_is(last.ident.as_str(), "Key") && WellKnownType::Key.is_expected_leading_path(
                &path.segments,
            ) && (last.arguments matches ArgsDecl::NoArgs)
        },
        TypeDecl::Other => false,
    }
}


// ---------------------------------------------------------------------------
// Reading attribute arguments as Rust

/// The value of the string literal that `text` is, if it is one.
pub uninterp spec fn lit_str_value(text: Seq<char>) -> Option<Seq<char>>;

/// The value of the boolean literal that `text` is, if it is one.
pub uninterp spec fn lit_bool_value(text: Seq<char>) -> Option<bool>;

/// The identifier that `text` is, if it is one.
pub uninterp spec fn ident_value(text: Seq<char>) -> Option<Seq<char>>;

/// Whether `text` is a Rust expression.
pub uninterp spec fn is_expr(text: Seq<char>) -> bool;

/// The upper-case form of `text`.
pub uninterp spec fn uppercase(text: Seq<char>) -> Seq<char>;

/// `syn::parse_str::<syn::LitStr>` followed by `LitStr::value`: reads `text`
/// as one string literal and gives its value. Which texts are string
/// literals, and their values, are not stated here.
#[verifier::external_body]
fn read_lit_str(text: &str) -> (res: Option<String>)
    ensures
        match res {
            Some(v) => lit_str_value(text@) == Some(v@),
            None => lit_str_value(text@) is None,
        },
{
    match syn::parse_str::<syn::LitStr>(text) {
        Ok(lit) => Some(lit.value()),
        Err(_) => None,
    }
}

/// `syn::parse_str::<syn::LitBool>`: reads `text` as one boolean literal and
/// gives its value.
#[verifier::external_body]
fn read_lit_bool(text: &str) -> (res: Option<bool>)
    ensures
        res == lit_bool_value(text@),
{
    match syn::parse_str::<syn::LitBool>(text) {
        Ok(lit) => Some(lit.value),
        Err(_) => None,
    }
}

/// `syn::parse_str::<syn::Ident>`: reads `text` as one identifier and gives
/// its text.
#[verifier::external_body]
fn read_ident(text: &str) -> (res: Option<String>)
    ensures
        match res {
            Some(v) => ident_value(text@) == Some(v@),
            None => ident_value(text@) is None,
        },
{
    match syn::parse_str::<syn::Ident>(text) {
        Ok(ident) => Some(ident.to_string()),
        Err(_) => None,
    }
}

/// `syn::parse_str::<syn::Expr>`: whether `text` reads as one expression.
#[verifier::external_body]
fn read_expr(text: &str) -> (res: bool)
    ensures
        res == is_expr(text@),
{
    syn::parse_str::<syn::Expr>(text).is_ok()
}

/// `str::to_uppercase`: the upper-case form of `text`, by Unicode's rules.
#[verifier::external_body]
pub(crate) fn to_uppercase_text(text: &str) -> (res: String)
    ensures
        res@ == uppercase(text@),
{
    text.to_uppercase()
}

// ---------------------------------------------------------------------------
// Field attributes

/// The attributes a field may carry, by what they are written as.
pub enum AttrKind {
    /// `#[group_key]`
    GroupKey,
    /// `#[key("...")]`
    Key(Seq<char>),
    /// `#[default(expr)]`
    Default(Seq<char>),
    /// `#[lazy_lock(bool)]`
    LazyLock(Seq<char>),
    /// `#[parse(kind)]`
    Parse(Seq<char>),
    Unknown,
}

/// Which attribute `a` is.
pub open spec fn attr_kind(a: AttrDecl) -> AttrKind {
    if !a.outer {
        AttrKind::Unknown
    } else {
        match a.meta {
            MetaDecl::Path(p) => if path_is_ident(p, "group_key"@) {
                AttrKind::GroupKey
            } else {
                AttrKind::Unknown
            },
            MetaDecl::List { path, tokens } => if path_is_ident(path, "key"@) {
                AttrKind::Key(tokens@)
            } else if path_is_ident(path, "default"@) {
                AttrKind::Default(tokens@)
            } else if path_is_ident(path, "lazy_lock"@) {
                AttrKind::LazyLock(tokens@)
            } else if path_is_ident(path, "parse"@) {
                AttrKind::Parse(tokens@)
            } else {
                AttrKind::Unknown
            },
            MetaDecl::NameValue(_) => AttrKind::Unknown,
        }
    }
}

/// An attribute with its argument read: what the `syn` crate made of it.
pub enum AttributeArgument {
    GroupKey,
    /// The string literal's value, if the argument is one.
    Key(Option<String>),
    /// The expression's text, if the argument is one.
    Default(Option<String>),
    /// The boolean literal's value, if the argument is one.
    LazyLock(Option<bool>),
    /// The identifier, if the argument is one.
    Parse(Option<String>),
    Unknown,
}

/// An attribute with its argument read, as mathematics.
pub enum ArgumentView {
    GroupKey,
    Key(Option<Seq<char>>),
    Default(Option<Seq<char>>),
    LazyLock(Option<bool>),
    Parse(Option<Seq<char>>),
    Unknown,
}

pub open spec fn opt_text(o: Option<String>) -> Option<Seq<char>> {
    match o {
        Some(s) => Some(s@),
        None => None,
    }
}

impl AttributeArgument {
    pub open spec fn view(&self) -> ArgumentView {
        match self {
            AttributeArgument::GroupKey => ArgumentView::GroupKey,
            AttributeArgument::Key(v) => ArgumentView::Key(opt_text(*v)),
            AttributeArgument::Default(v) => ArgumentView::Default(opt_text(*v)),
            AttributeArgument::LazyLock(v) => ArgumentView::LazyLock(*v),
            AttributeArgument::Parse(v) => ArgumentView::Parse(opt_text(*v)),
            AttributeArgument::Unknown => ArgumentView::Unknown,
        }
    }
}

/// What reading the argument of `a` gives.
pub open spec fn argument_of(a: AttrDecl) -> ArgumentView {
    match attr_kind(a) {
        AttrKind::GroupKey => ArgumentView::GroupKey,
        AttrKind::Key(t) => ArgumentView::Key(lit_str_value(t)),
        AttrKind::Default(t) => ArgumentView::Default(if is_expr(t) { Some(t) } else { None }),
        AttrKind::LazyLock(t) => ArgumentView::LazyLock(lit_bool_value(t)),
        AttrKind::Parse(t) => ArgumentView::Parse(ident_value(t)),
        AttrKind::Unknown => ArgumentView::Unknown,
    }
}

/// Tells which attribute `a` is and reads its argument.
pub fn read_argument(a: &AttrDecl) -> (res: AttributeArgument)
    ensures
        res.view() == argument_of(*a),
{
    if !a.outer {
        return AttributeArgument::Unknown;
    }
    match &a.meta {
        MetaDecl::Path(p) => if is_ident(p, "group_key") {
            AttributeArgument::GroupKey
        } else {
            AttributeArgument::Unknown
        },
        MetaDecl::List { path, tokens } => if is_ident(path, "key") {
            AttributeArgument::Key(read_lit_str(tokens.as_str()))
        } else if is_ident(path, "default") {
            if read_expr(tokens.as_str()) {
                AttributeArgument::Default(Some(tokens.clone()))
            } else {
                AttributeArgument::Default(None)
            }
        } else if is_ident(path, "lazy_lock") {
            AttributeArgument::LazyLock(read_lit_bool(tokens.as_str()))
        } else if is_ident(path, "parse") {
            AttributeArgument::Parse(read_ident(tokens.as_str()))
        } else {
            AttributeArgument::Unknown
        },
        MetaDecl::NameValue(_) => AttributeArgument::Unknown,
    }
}

/// Why the attributes of a field were refused.
#[derive(Debug, Clone, Copy, PartialEq, Eq, Structural)]
pub enum FieldAttributeErrorKind {
    /// `key` needs a string literal.
    InvalidKey,
    /// `key` needs a non-empty string.
    EmptyKey,
    /// `default` needs an expression.
    InvalidDefault,
    /// `lazy_lock` needs `true` or `false`.
    InvalidLazyLock,
    /// `lazy_lock` was given before, with this value.
    LazyLockConflict(bool),
    /// `parse` needs an identifier.
    InvalidParse,
    /// `parse` names no kind of entry.
    UnknownParser,
    UnknownAttribute,
}

/// Why the attributes of a field were refused, and at which attribute.
#[derive(Debug, Clone, Copy, PartialEq, Eq, Structural)]
pub struct FieldAttributeError {
    pub index: usize,
    pub kind: FieldAttributeErrorKind,
}

/// The attributes of a field, read so far.
pub struct AttributeState {
    pub key: Option<String>,
    pub default: Option<String>,
    pub lazy_lock: Option<bool>,
    pub parser: Option<FieldType>,
    pub default_lazy_lock: bool,
}

/// The attributes of a field read so far, as mathematics.
pub struct StateView {
    pub key: Option<Seq<char>>,
    pub default: Option<Seq<char>>,
    pub lazy_lock: Option<bool>,
    pub parser: Option<FieldType>,
    pub default_lazy_lock: bool,
}

impl AttributeState {
    pub open spec fn view(&self) -> StateView {
        StateView {
            key: opt_text(self.key),
            default: opt_text(self.default),
            lazy_lock: self.lazy_lock,
            parser: self.parser,
            default_lazy_lock: self.default_lazy_lock,
        }
    }
}

/// The kind of entry that `name` names in `#[parse(name)]`.
pub open spec fn parser_named(name: Seq<char>) -> Option<FieldType> {
    if name == "config"@ {
        Some(FieldType::Config)
    } else if name == "group"@ {
        Some(FieldType::Group)
    } else if name == "any_group"@ {
        Some(FieldType::AnyGroup)
    } else if name == "flatten"@ {
        Some(FieldType::Flatten)
    } else if name == "key"@ {
        Some(FieldType::GroupKey)
    } else {
        None
    }
}

fn parser_of_name(name: &String) -> (res: Option<FieldType>)
    ensures
        res == parser_named(name@),
{
    let s = name.as_str();
    if text_is(s, "config") {
        Some(FieldType::Config)
    } else if text_is(s, "group") {
        Some(FieldType::Group)
    } else if text_is(s, "any_group") {
        Some(FieldType::AnyGroup)
    } else if text_is(s, "flatten") {
        Some(FieldType::Flatten)
    } else if text_is(s, "key") {
        Some(FieldType::GroupKey)
    } else {
        None
    }
}

/// The laziness of a field's default where no attribute sets it: lazy for a
/// well-known type unless its default can be built in a constant.
pub open spec fn lazy_by_default(wkt: Option<WellKnownType>, with_default: bool) -> bool {
    match wkt {
        Some(w) => if with_default {
            true
        } else {
            !(w == WellKnownType::ConfigList || w == WellKnownType::ConfigAcl)
        },
        None => false,
    }
}

/// What one attribute does to the attributes read so far, or why it is
/// refused. A `parse` that names no kind is refused only where no kind has
/// been set before.
pub open spec fn attr_step(
    wkt: Option<WellKnownType>,
    st: StateView,
    index: int,
    arg: ArgumentView,
) -> Result<StateView, (int, FieldAttributeErrorKind)> {
    match arg {
        ArgumentView::GroupKey => Ok(StateView { parser: Some(FieldType::GroupKey), ..st }),
        ArgumentView::Key(v) => match v {
            None => Err((index, FieldAttributeErrorKind::InvalidKey)),
            Some(k) => if k.len() == 0 {
                Err((index, FieldAttributeErrorKind::EmptyKey))
            } else {
                Ok(StateView { key: Some(k), ..st })
            },
        },
        ArgumentView::Default(e) => match e {
            None => Err((index, FieldAttributeErrorKind::InvalidDefault)),
            Some(t) => Ok(
                StateView { default: Some(t), default_lazy_lock: lazy_by_default(wkt, true), ..st },
            ),
        },
        ArgumentView::LazyLock(b) => match b {
            None => Err((index, FieldAttributeErrorKind::InvalidLazyLock)),
            Some(v) => match st.lazy_lock {
                Some(last) => Err((index, FieldAttributeErrorKind::LazyLockConflict(last))),
                None => Ok(StateView { lazy_lock: Some(v), ..st }),
            },
        },
        ArgumentView::Parse(name) => match name {
            None => Err((index, FieldAttributeErrorKind::InvalidParse)),
            Some(n) => match parser_named(n) {
                Some(ft) => Ok(StateView { parser: Some(ft), ..st }),
                None => if st.parser is None {
                    Err((index, FieldAttributeErrorKind::UnknownParser))
                } else {
                    Ok(st)
                },
            },
        },
        ArgumentView::Unknown => Err((index, FieldAttributeErrorKind::UnknownAttribute)),
    }
}

/// The attributes read before any attribute.
pub open spec fn initial_state(wkt: Option<WellKnownType>) -> StateView {
    StateView {
        key: None,
        default: None,
        lazy_lock: None,
        parser: None,
        default_lazy_lock: lazy_by_default(wkt, false),
    }
}

/// The attributes read from `attrs`, in order, or the first refusal.
pub open spec fn attrs_fold(wkt: Option<WellKnownType>, attrs: Seq<AttrDecl>) -> Result<
    StateView,
    (int, FieldAttributeErrorKind),
>
    decreases attrs.len(),
{
    if attrs.len() == 0 {
        Ok(initial_state(wkt))
    } else {
        match attrs_fold(wkt, attrs.drop_last()) {
            Err(e) => Err(e),
            Ok(st) => attr_step(wkt, st, attrs.len() - 1, argument_of(attrs.last())),
        }
    }
}

/// The attributes of a field, settled.
pub struct ConfigFieldAttributes {
    pub key: Option<String>,
    pub default: Option<String>,
    pub lazy_lock: bool,
    pub parser: FieldType,
}

/// The settled attributes, as mathematics.
pub struct FieldAttributesView {
    pub key: Option<Seq<char>>,
    pub default: Option<Seq<char>>,
    pub lazy_lock: bool,
    pub parser: FieldType,
}

impl ConfigFieldAttributes {
    pub open spec fn view(&self) -> FieldAttributesView {
        FieldAttributesView {
            key: opt_text(self.key),
            default: opt_text(self.default),
            lazy_lock: self.lazy_lock,
            parser: self.parser,
        }
    }
}

/// The attributes settled from what the attributes set: the kind falls back
/// on the one the type tells (or `group`), the laziness on its default.
pub open spec fn settle(wkt: Option<WellKnownType>, st: StateView) -> FieldAttributesView {
    FieldAttributesView {
        key: st.key,
        default: st.default,
        lazy_lock: match st.lazy_lock {
            Some(b) => b,
            None => st.default_lazy_lock,
        },
        parser: match st.parser {
            Some(p) => p,
            None => match wkt {
                Some(w) => wkt_parser(w),
                None => FieldType::Group,
            },
        },
    }
}

/// The settled attributes of a field, or the first refusal.
pub open spec fn field_attributes_spec(field: FieldDecl) -> Result<
    FieldAttributesView,
    (int, FieldAttributeErrorKind),
> {
    let wkt = parse_type_spec(field.ty);
    match attrs_fold(wkt, field.attrs@) {
        Ok(st) => Ok(settle(wkt, st)),
        Err(e) => Err(e),
    }
}

impl AttributeState {
    /// Applies one attribute, its argument already read.
    pub fn apply(self, wkt: Option<WellKnownType>, index: usize, arg: AttributeArgument) -> (res: Result<
        AttributeState,
        FieldAttributeError,
    >)
        ensures
            match attr_step(wkt, self.view(), index as int, arg.view()) {
                Ok(st) => res matches Ok(s) && s.view() == st,
                Err((i, k)) => res matches Err(e) && e.index == i && e.kind == k,
            },
    {
        let mut st = self;
        match arg {
            AttributeArgument::GroupKey => {
                st.parser = Some(FieldType::GroupKey);
                Ok(st)
            },
            AttributeArgument::Key(v) => match v {
                None => Err(FieldAttributeError { index, kind: FieldAttributeErrorKind::InvalidKey }),
                Some(k) => if k.as_str().is_empty() {
                    Err(FieldAttributeError { index, kind: FieldAttributeErrorKind::EmptyKey })
                } else {
                    st.key = Some(k);
                    Ok(st)
                },
            },
            AttributeArgument::Default(e) => match e {
                None => Err(
                    FieldAttributeError { index, kind: FieldAttributeErrorKind::InvalidDefault },
                ),
                Some(t) => {
                    st.default = Some(t);
                    st.default_lazy_lock = match wkt {
                        Some(w) => !w.is_config_const_new_with_default(),
                        None => false,
                    };
                    Ok(st)
                },
            },
            AttributeArgument::LazyLock(b) => match b {
                None => Err(
                    FieldAttributeError { index, kind: FieldAttributeErrorKind::InvalidLazyLock },
                ),
                Some(v) => match st.lazy_lock {
                    Some(last) => Err(
                        FieldAttributeError {
                            index,
                            kind: FieldAttributeErrorKind::LazyLockConflict(last),
                        },
                    ),
                    None => {
                        st.lazy_lock = Some(v);
                        Ok(st)
                    },
                },
            },
            AttributeArgument::Parse(name) => match name {
                None => Err(FieldAttributeError { index, kind: FieldAttributeErrorKind::InvalidParse }),
                Some(n) => match parser_of_name(&n) {
                    Some(ft) => {
                        st.parser = Some(ft);
                        Ok(st)
                    },
                    None => if st.parser.is_none() {
                        Err(
                            FieldAttributeError {
                                index,
                                kind: FieldAttributeErrorKind::UnknownParser,
                            },
                        )
                    } else {
                        Ok(st)
                    },
                },
            },
            AttributeArgument::Unknown => Err(
                FieldAttributeError { index, kind: FieldAttributeErrorKind::UnknownAttribute },
            ),
        }
    }
}

impl ConfigFieldAttributes {
    /// Reads the attributes of `field`: `Ok` with the settled attributes, or
    /// the first attribute refused and why.
    pub fn parse(field: &FieldDecl) -> (res: Result<Self, FieldAttributeError>)
        ensures
            match field_attributes_spec(*field) {
                Ok(a) => res matches Ok(r) && r.view() == a,
                Err((i, k)) => res matches Err(e) && e.index == i && e.kind == k,
            },
    {
        let wkt = WellKnownType::parse(field);
        let default_lazy_lock = match wkt {
            Some(w) => !w.is_config_const_new(),
            None => false,
        };
        let mut st = AttributeState {
            key: None,
            default: None,
            lazy_lock: None,
            parser: None,
            default_lazy_lock,
        };
        let mut i: usize = 0;
        proof {
            assert(field.attrs@.take(0) =~= Seq::<AttrDecl>::empty());
        }
        while i < field.attrs.len()
            invariant
                i <= field.attrs@.len(),
                wkt == parse_type_spec(field.ty),
                attrs_fold(wkt, field.attrs@.take(i as int)) == Ok::<
                    StateView,
                    (int, FieldAttributeErrorKind),
                >(st.view()),
            decreases field.attrs@.len() - i,
        {
            proof {
                assert(field.attrs@.take(i + 1).drop_last() =~= field.attrs@.take(i as int));
                assert(field.attrs@.take(i + 1).last() == field.attrs@[i as int]);
            }
            let arg = read_argument(&field.attrs[i]);
            match st.apply(wkt, i, arg) {
                Ok(next) => {
                    st = next;
                },
                Err(e) => {
                    proof {
                        lemma_attrs_fold_error(wkt, field.attrs@, i as int + 1);
                    }
                    return Err(e);
                },
            }
            i = i + 1;
        }
        proof {
            assert(field.attrs@.take(field.attrs@.len() as int) =~= field.attrs@);
        }
        let parser = match st.parser {
            Some(p) => p,
            None => match wkt {
                Some(w) => w.parser(),
                None => FieldType::Group,
            },
        };
        let lazy_lock = match st.lazy_lock {
            Some(b) => b,
            None => st.default_lazy_lock,
        };
        Ok(ConfigFieldAttributes { key: st.key, default: st.default, lazy_lock, parser })
    }
}

/// Once a prefix of the attributes is refused, all of them are, alike.
proof fn lemma_attrs_fold_error(wkt: Option<WellKnownType>, attrs: Seq<AttrDecl>, k: int)
    requires
        0 <= k <= attrs.len(),
        attrs_fold(wkt, attrs.take(k)) is Err,
    ensures
        attrs_fold(wkt, attrs) == attrs_fold(wkt, attrs.take(k)),
    decreases attrs.len() - k,
{
    if k < attrs.len() {
        assert(attrs.take(k + 1).drop_last() =~= attrs.take(k));
        lemma_attrs_fold_error(wkt, attrs, k + 1);
    } else {
        assert(attrs.take(k) =~= attrs);
    }
}

} // verus!
