use every_variant::derive::{product_choices, sum_choices};
use every_variant::EveryVariant;
use heapless::{String as HString, Vec as HVec};

/// Type of the message
#[derive(Debug, Clone)]
enum MessageType {
    Codified,
    Markdown,
    Html,
}

impl EveryVariant for MessageType {
    fn every_variant() -> Vec<Self> {
        sum_choices(&vec![vec![], vec![], vec![]])
            .into_iter()
            .map(|choice| match choice.constructor {
                0 => MessageType::Codified,
                1 => MessageType::Markdown,
                _ => MessageType::Html,
            })
            .collect()
    }
}

/// This type comes in as many variants as its two fields have together
#[derive(Debug, Clone)]
#[allow(dead_code)]
struct FormattedMessage {
    /// Enum dictating how to render the string, None means its hidden
    rendermethod: Option<MessageType>,
    /// The optional content of the message
    text: String,
}

impl EveryVariant for FormattedMessage {
    fn every_variant() -> Vec<Self> {
        let rendermethod = Option::<MessageType>::every_variant();
        let text = String::every_variant();
        product_choices(&vec![rendermethod.len(), text.len()])
            .into_iter()
            .map(|at| FormattedMessage {
                rendermethod: rendermethod[at[0]].clone(),
                text: text[at[1]].clone(),
            })
            .collect()
    }
}

#[test]
fn small_example() {
    let all_diferent_messages = FormattedMessage::every_variant();
    println!("{:#?}", all_diferent_messages);
    assert_eq!(16, all_diferent_messages.len());
}

#[test]
fn heapless() {
    let _s = HString::<16>::every_variant();
    let _v = HVec::<u8, 16>::every_variant();
}

#[derive(Debug, Clone)]
#[allow(dead_code)]
pub struct Message {
    pub message: String,
    pub number: u32,
    pub opt: Option<u64>,
    pub nest: Top,
    pub second: SecondTop,
}

impl EveryVariant for Message {
    fn every_variant() -> Vec<Self> {
        let message = String::every_variant();
        let number = u32::every_variant();
        let opt = Option::<u64>::every_variant();
        let nest = Top::every_variant();
        let second = SecondTop::every_variant();
        product_choices(&vec![message.len(), number.len(), opt.len(), nest.len(), second.len()])
            .into_iter()
            .map(|at| Message {
                message: message[at[0]].clone(),
                number: number[at[1]].clone(),
                opt: opt[at[2]].clone(),
                nest: nest[at[3]].clone(),
                second: second[at[4]].clone(),
            })
            .collect()
    }
}

#[derive(Debug, Clone)]
#[allow(dead_code)]
pub enum SecondTop {
    One,
    Two(Nested),
    Three,
}

impl EveryVariant for SecondTop {
    fn every_variant() -> Vec<Self> {
        let nested = Nested::every_variant();
        sum_choices(&vec![vec![], vec![nested.len()], vec![]])
            .into_iter()
            .map(|choice| match choice.constructor {
                0 => SecondTop::One,
                1 => SecondTop::Two(nested[choice.fields[0]].clone()),
                _ => SecondTop::Three,
            })
            .collect()
    }
}

#[derive(Debug, Clone)]
#[allow(dead_code)]
pub enum Top {
    One,
    Nested(Nested),
}

impl EveryVariant for Top {
    fn every_variant() -> Vec<Self> {
        let nested = Nested::every_variant();
        sum_choices(&vec![vec![], vec![nested.len()]])
            .into_iter()
            .map(|choice| match choice.constructor {
                0 => Top::One,
                _ => Top::Nested(nested[choice.fields[0]].clone()),
            })
            .collect()
    }
}

#[derive(Debug, Clone)]
pub enum Nested {
    First,
    Second,
    Third,
}

impl EveryVariant for Nested {
    fn every_variant() -> Vec<Self> {
        sum_choices(&vec![vec![], vec![], vec![]])
            .into_iter()
            .map(|choice| match choice.constructor {
                0 => Nested::First,
                1 => Nested::Second,
                _ => Nested::Third,
            })
            .collect()
    }
}

#[derive(Debug, Clone)]
#[allow(dead_code)]
pub enum TestUnnamed1 {
    UnnamedSingle(u16),
    UnnamedMultiple1(u16, u32),
    UnnamedMultiple2(u16, u32, u64),
}

impl EveryVariant for TestUnnamed1 {
    fn every_variant() -> Vec<Self> {
        let a = u16::every_variant();
        let b = u32::every_variant();
        let c = u64::every_variant();
        sum_choices(&vec![vec![a.len()], vec![a.len(), b.len()], vec![a.len(), b.len(), c.len()]])
            .into_iter()
            .map(|choice| {
                let at = choice.fields;
                match choice.constructor {
                    0 => TestUnnamed1::UnnamedSingle(a[at[0]].clone()),
                    1 => TestUnnamed1::UnnamedMultiple1(a[at[0]].clone(), b[at[1]].clone()),
                    _ => TestUnnamed1::UnnamedMultiple2(
                        a[at[0]].clone(),
                        b[at[1]].clone(),
                        c[at[2]].clone(),
                    ),
                }
            })
            .collect()
    }
}

#[derive(Debug, Clone)]
#[allow(dead_code)]
pub enum TestNamed1 {
    NamedSingle { first: u16 },
    NamedMultiple1 { first: u16, second: u32 },
    NamedMultiple2 { first: u16, second: u32, third: u64 },
}

impl EveryVariant for TestNamed1 {
    fn every_variant() -> Vec<Self> {
        let a = u16::every_variant();
        let b = u32::every_variant();
        let c = u64::every_variant();
        sum_choices(&vec![vec![a.len()], vec![a.len(), b.len()], vec![a.len(), b.len(), c.len()]])
            .into_iter()
            .map(|choice| {
                let at = choice.fields;
                match choice.constructor {
                    0 => TestNamed1::NamedSingle { first: a[at[0]].clone() },
                    1 => TestNamed1::NamedMultiple1 {
                        first: a[at[0]].clone(),
                        second: b[at[1]].clone(),
                    },
                    _ => TestNamed1::NamedMultiple2 {
                        first: a[at[0]].clone(),
                        second: b[at[1]].clone(),
                        third: c[at[2]].clone(),
                    },
                }
            })
            .collect()
    }
}

#[derive(Debug, Clone)]
#[allow(dead_code)]
pub struct TestUnnamed2(u16, u32, u64);

impl EveryVariant for TestUnnamed2 {
    fn every_variant() -> Vec<Self> {
        let a = u16::every_variant();
        let b = u32::every_variant();
        let c = u64::every_variant();
        product_choices(&vec![a.len(), b.len(), c.len()])
            .into_iter()
            .map(|at| TestUnnamed2(a[at[0]].clone(), b[at[1]].clone(), c[at[2]].clone()))
            .collect()
    }
}

#[derive(Debug, Clone)]
#[allow(dead_code)]
pub struct Gen1<A: EveryVariant + Clone>(A);

impl<A: EveryVariant + Clone> EveryVariant for Gen1<A> {
    fn every_variant() -> Vec<Self> {
        let a = A::every_variant();
        product_choices(&vec![a.len()]).into_iter().map(|at| Gen1(a[at[0]].clone())).collect()
    }
}

#[derive(Debug, Clone)]
#[allow(dead_code)]
pub struct Gen2<A: EveryVariant + Clone, B: EveryVariant + Clone>(A, B);

impl<A: EveryVariant + Clone, B: EveryVariant + Clone> EveryVariant for Gen2<A, B> {
    fn every_variant() -> Vec<Self> {
        let a = A::every_variant();
        let b = B::every_variant();
        product_choices(&vec![a.len(), b.len()])
            .into_iter()
            .map(|at| Gen2(a[at[0]].clone(), b[at[1]].clone()))
            .collect()
    }
}

#[derive(Debug, Clone)]
#[allow(dead_code)]
pub struct Generic1(Gen1<u8>, Gen2<u16, u32>);

impl EveryVariant for Generic1 {
    fn every_variant() -> Vec<Self> {
        let a = Gen1::<u8>::every_variant();
        let b = Gen2::<u16, u32>::every_variant();
        product_choices(&vec![a.len(), b.len()])
            .into_iter()
            .map(|at| Generic1(a[at[0]].clone(), b[at[1]].clone()))
            .collect()
    }
}

#[derive(Debug, Clone)]
#[allow(dead_code)]
pub enum Generic2 {
    G1(Gen1<i8>),
    G2(Gen2<i16, i32>),
}

impl EveryVariant for Generic2 {
    fn every_variant() -> Vec<Self> {
        let a = Gen1::<i8>::every_variant();
        let b = Gen2::<i16, i32>::every_variant();
        sum_choices(&vec![vec![a.len()], vec![b.len()]])
            .into_iter()
            .map(|choice| match choice.constructor {
                0 => Generic2::G1(a[choice.fields[0]].clone()),
                _ => Generic2::G2(b[choice.fields[0]].clone()),
            })
            .collect()
    }
}

#[derive(Debug, Clone)]
pub struct TestUnnamed3(pub u16);

impl EveryVariant for TestUnnamed3 {
    fn every_variant() -> Vec<Self> {
        let a = u16::every_variant();
        product_choices(&vec![a.len()]).into_iter().map(|at| TestUnnamed3(a[at[0]].clone())).collect()
    }
}

#[allow(unused)]
pub struct GenericDerive<T> {
    value: T,
}

impl<T: EveryVariant + Clone> EveryVariant for GenericDerive<T> {
    fn every_variant() -> Vec<Self> {
        let value = T::every_variant();
        product_choices(&vec![value.len()])
            .into_iter()
            .map(|at| GenericDerive { value: value[at[0]].clone() })
            .collect()
    }
}

#[allow(unused)]
pub enum GenericEnum<T> {
    One(T),
    Two(u32),
}

impl<T: EveryVariant + Clone> EveryVariant for GenericEnum<T> {
    fn every_variant() -> Vec<Self> {
        let a = T::every_variant();
        let b = u32::every_variant();
        sum_choices(&vec![vec![a.len()], vec![b.len()]])
            .into_iter()
            .map(|choice| match choice.constructor {
                0 => GenericEnum::One(a[choice.fields[0]].clone()),
                _ => GenericEnum::Two(b[choice.fields[0]].clone()),
            })
            .collect()
    }
}

#[allow(unused)]
pub struct MultiGeneric<A, B>(A, B);

impl<A: EveryVariant + Clone, B: EveryVariant + Clone> EveryVariant for MultiGeneric<A, B> {
    fn every_variant() -> Vec<Self> {
        let a = A::every_variant();
        let b = B::every_variant();
        product_choices(&vec![a.len(), b.len()])
            .into_iter()
            .map(|at| MultiGeneric(a[at[0]].clone(), b[at[1]].clone()))
            .collect()
    }
}

#[test]
fn messages_number() {
    let msgs = Message::every_variant().len();
    assert_eq!(4 * 4 * 5 * 4 * 5, msgs);
}

#[test]
fn opts_number() {
    let msgs = Option::<u64>::every_variant().len();
    assert_eq!(5, msgs);
}

#[test]
fn unnamed1() {
    let msgs = TestUnnamed1::every_variant().len();
    assert_eq!(84, msgs);
}

#[test]
fn unnamed2() {
    let msgs = TestUnnamed2::every_variant().len();
    assert_eq!(64, msgs);
}

#[test]
fn generic1() {
    let msgs = Generic1::every_variant().len();
    assert_eq!(64, msgs);
}

#[test]
fn generic2() {
    let msgs = Generic2::every_variant().len();
    assert_eq!(30, msgs);
}

#[test]
fn named_enum() {
    let msgs = TestNamed1::every_variant().len();
    assert_eq!(84, msgs);
}

#[test]
fn generic_everyvariant() {
    let msgs = GenericDerive::<u32>::every_variant().len();
    assert_eq!(4, msgs);

    let msgs = GenericEnum::<u32>::every_variant().len();
    assert_eq!(2 * 4, msgs);

    let msgs = MultiGeneric::<u32, u32>::every_variant().len();
    assert_eq!(16, msgs);
}

#[test]
fn newtype_has_the_variants_of_its_field() {
    let all = TestUnnamed3::every_variant();
    assert_eq!(4, all.len());
    let inner: Vec<u16> = all.iter().map(|wrapped| wrapped.0).collect();
    assert_eq!(inner, u16::every_variant());
}

#[test]
fn generic_product_of_two_signed_integers() {
    let all = Gen2::<i16, i32>::every_variant();
    assert_eq!(25, all.len());
    assert_eq!((all[0].0, all[0].1), (i16::MIN, i32::MIN));
    assert_eq!((all[1].0, all[1].1), (i16::MIN, -1));
    assert_eq!((all[5].0, all[5].1), (-1, i32::MIN));
    assert_eq!((all[24].0, all[24].1), (i16::MAX, i32::MAX));
}

#[test]
fn every_constructor_of_a_sum_appears() {
    let all = TestUnnamed1::every_variant();
    assert!(all.iter().any(|v| matches!(v, TestUnnamed1::UnnamedSingle(_))));
    assert!(all.iter().any(|v| matches!(v, TestUnnamed1::UnnamedMultiple1(_, _))));
    assert!(all.iter().any(|v| matches!(v, TestUnnamed1::UnnamedMultiple2(_, _, _))));
    let all = SecondTop::every_variant();
    assert!(matches!(all[0], SecondTop::One));
    assert!(matches!(all[1], SecondTop::Two(Nested::First)));
    assert!(matches!(all[3], SecondTop::Two(Nested::Third)));
    assert!(matches!(all[4], SecondTop::Three));
}

#[test]
fn derived_lists_are_the_same_on_every_call() {
    let first = format!("{:?}", Message::every_variant());
    let second = format!("{:?}", Message::every_variant());
    assert_eq!(first, second);
}
