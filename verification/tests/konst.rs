use moore::konst::{Const, ConstFloat, ConstInt, ConstRange, Dir};
use moore::numeric::Num;

#[test]
fn negate_const_int() {
    let k = ConstInt::new(Num::from_u32(42));
    let n = k.negate();
    assert!(n.value.negative);
    assert_eq!(n.value.mag, vec![42]);
    let back = n.negate();
    assert!(!back.value.negative);
    assert_eq!(back.value.mag, vec![42]);
}

#[test]
fn negate_zero_stays_canonical() {
    let z = ConstInt::new(Num::zero());
    let n = z.negate();
    assert!(!n.value.negative);
    assert!(n.value.mag.is_empty());
}

#[test]
fn negate_const_enum() {
    let k = Const::Int(ConstInt::new(Num::from_u32(3)));
    match k.negate() {
        Const::Int(n) => {
            assert!(n.value.negative);
            assert_eq!(n.value.mag, vec![3]);
        }
        _ => panic!("expected an integer"),
    }
    let f = Const::Float(ConstFloat {});
    assert!(matches!(f.negate(), Const::Float(_)));
}

#[test]
fn negate_is_not_identity() {
    let five = Num::from_u32(5);
    let neg = five.negate();
    assert!(!five.eq_num(&neg));
    assert!(five.eq_num(&neg.negate()));
}

#[test]
fn kind_descriptions() {
    assert_eq!(Const::Int(ConstInt::new(Num::zero())).kind_desc(), "integer");
    assert_eq!(Const::Float(ConstFloat {}).kind_desc(), "float");
    let r = ConstRange::new(
        Dir::To,
        ConstInt::new(Num::from_u32(0)),
        ConstInt::new(Num::from_u32(7)),
    );
    assert_eq!(Const::IntRange(r).kind_desc(), "integer range");
    let fr = ConstRange::new(Dir::Downto, ConstFloat {}, ConstFloat {});
    assert_eq!(Const::FloatRange(fr).kind_desc(), "float range");
}

#[test]
fn const_from_impls() {
    assert!(matches!(
        Const::from(ConstInt::new(Num::from_u32(1))),
        Const::Int(_)
    ));
    assert!(matches!(Const::from(ConstFloat {}), Const::Float(_)));
    let r = ConstRange::new(
        Dir::To,
        ConstInt::new(Num::zero()),
        ConstInt::new(Num::zero()),
    );
    assert!(matches!(Const::from(r), Const::IntRange(_)));
    let fr = ConstRange::new(Dir::To, ConstFloat {}, ConstFloat {});
    assert!(matches!(Const::from(fr), Const::FloatRange(_)));
}

#[test]
fn range_fields() {
    let r = ConstRange::new(
        Dir::Downto,
        ConstInt::new(Num::from_u32(7)),
        ConstInt::new(Num::from_u32(0)),
    );
    assert_eq!(r.dir, Dir::Downto);
    assert_eq!(r.left_bound.value.mag, vec![7]);
    assert!(r.right_bound.value.mag.is_empty());
}
