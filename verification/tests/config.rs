use n_body::config::{DistributionMethod, DistributionMethodEmpty};
use n_body::particle::belt_random::Direction;

#[derive(Debug, Default, Clone, PartialEq)]
struct Plain(u32);
#[derive(Debug, Default, Clone, PartialEq)]
struct Belt(u32);

type Dm = DistributionMethod<Plain, Belt>;

#[test]
fn corresponding_gives_the_variant() {
    assert_eq!(Dm::Plain(Plain(3)).corresponding(), DistributionMethodEmpty::Plain);
    assert_eq!(Dm::Belt(Belt(4)).corresponding(), DistributionMethodEmpty::Belt);
}

#[test]
fn is_same_compares_variants() {
    assert!(Dm::Plain(Plain(1)).is_same(DistributionMethodEmpty::Plain));
    assert!(!Dm::Plain(Plain(1)).is_same(DistributionMethodEmpty::Belt));
    assert!(Dm::Belt(Belt(1)).is_same(DistributionMethodEmpty::Belt));
    assert!(!Dm::Belt(Belt(1)).is_same(DistributionMethodEmpty::Plain));
}

#[test]
fn corresponding_default_round_trips() {
    for e in [DistributionMethodEmpty::Plain, DistributionMethodEmpty::Belt] {
        let m: Dm = e.corresponding_default();
        assert_eq!(m.corresponding(), e);
    }
    match DistributionMethodEmpty::Plain.corresponding_default::<Plain, Belt>() {
        DistributionMethod::Plain(p) => assert_eq!(p, Plain::default()),
        DistributionMethod::Belt(_) => panic!("expected the plain generator"),
    }
}

#[test]
fn defaults_agree_on_belt() {
    let m: Dm = Default::default();
    assert_eq!(m.corresponding(), DistributionMethodEmpty::default());
    assert_eq!(DistributionMethodEmpty::default(), DistributionMethodEmpty::Belt);
    match m {
        DistributionMethod::Belt(b) => assert_eq!(b, Belt::default()),
        DistributionMethod::Plain(_) => panic!("expected the belt generator"),
    }
}

#[test]
fn direction_defaults_to_counter_clockwise() {
    assert_eq!(Direction::default(), Direction::CCW);
}
