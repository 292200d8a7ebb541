use rustlet::charsmush::{rule_1, rule_2, rule_3, rule_4, rule_5};
use rustlet::{SMUSH_BIGX, SMUSH_EQUAL, SMUSH_HIERARCHY, SMUSH_PAIR, SMUSH_UNDERLINE};

#[test]
fn test_rule_1() {
    assert_eq!(rule_1('-', '-', 0), None);
    assert_eq!(rule_1('-', 'x', 0), None);
    assert_eq!(rule_1('-', '-', SMUSH_EQUAL), Some('-'));
    assert_eq!(rule_1('-', 'x', SMUSH_EQUAL), None);
}

#[test]
fn test_rule_2() {
    for x in ['|', '/', '\\', '[', ']', '{', '}', '(', ')', '<', '>'].iter() {
        assert_eq!(rule_2('_', *x, 0), None);
        assert_eq!(rule_2(*x, '_', 0), None);
        assert_eq!(rule_2('_', *x, SMUSH_UNDERLINE), Some(*x));
        assert_eq!(rule_2(*x, '_', SMUSH_UNDERLINE), Some(*x));
    }
    assert_eq!(rule_2('_', 'x', 0), None);
    assert_eq!(rule_2('x', '_', 0), None);
    assert_eq!(rule_2('_', 'x', SMUSH_UNDERLINE), None);
    assert_eq!(rule_2('x', '_', SMUSH_UNDERLINE), None);
}

#[test]
fn test_rule_3() {
    let list = ['|', '/', '\\', '[', ']', '{', '}', '(', ')', '<', '>'];

    for x in list.iter() {
        for y in list.iter() {
            assert_eq!(rule_3(*x, *y, 0), None);
        }
    }

    assert_eq!(rule_3('|', '|', SMUSH_HIERARCHY), None);
    for x in list[1..].iter() {
        assert_eq!(rule_3('|', *x, SMUSH_HIERARCHY), Some(*x));
    }
    for i in 0..4 {
        let idx = 3 + i * 2;
        for x in list[idx..idx + 1].iter() {
            for y in list[idx + 2..].iter() {
                assert_eq!(rule_3(*x, *y, SMUSH_HIERARCHY), Some(*y));
                assert_eq!(rule_3(*y, *x, SMUSH_HIERARCHY), Some(*y));
            }
        }
    }
}

#[test]
fn test_rule_4() {
    assert_eq!(rule_4('[', ']', 0), None);
    assert_eq!(rule_4(']', '[', 0), None);
    assert_eq!(rule_4('{', '}', 0), None);
    assert_eq!(rule_4('}', '{', 0), None);
    assert_eq!(rule_4('(', ')', 0), None);
    assert_eq!(rule_4(')', '(', 0), None);
    assert_eq!(rule_4('[', ']', SMUSH_PAIR), Some('|'));
    assert_eq!(rule_4(']', '[', SMUSH_PAIR), Some('|'));
    assert_eq!(rule_4('{', '}', SMUSH_PAIR), Some('|'));
    assert_eq!(rule_4('}', '{', SMUSH_PAIR), Some('|'));
    assert_eq!(rule_4('(', ')', SMUSH_PAIR), Some('|'));
    assert_eq!(rule_4(')', '(', SMUSH_PAIR), Some('|'));
    assert_eq!(rule_4('(', 'x', SMUSH_PAIR), None);
    assert_eq!(rule_4('(', '}', SMUSH_PAIR), None);
    assert_eq!(rule_4('(', ']', SMUSH_PAIR), None);
    assert_eq!(rule_4('(', '(', SMUSH_PAIR), None);
}

#[test]
fn test_rule_5() {
    assert_eq!(rule_5('/', '\\', 0), None);
    assert_eq!(rule_5('\\', '/', 0), None);
    assert_eq!(rule_5('>', '<', 0), None);
    assert_eq!(rule_5('<', '>', 0), None);
    assert_eq!(rule_5('/', '\\', SMUSH_BIGX), Some('|'));
    assert_eq!(rule_5('\\', '/', SMUSH_BIGX), Some('Y'));
    assert_eq!(rule_5('>', '<', SMUSH_BIGX), Some('X'));
    assert_eq!(rule_5('<', '>', SMUSH_BIGX), None);
}

#[test]
fn smush_is_symmetric_for_equal_pair_hierarchy() {
    // The equal, opposite-pair and hierarchy rules do not care which side
    // their arguments stand on.
    let mode = SMUSH_EQUAL | SMUSH_HIERARCHY | SMUSH_PAIR;
    let chars = ['x', '_', '|', '/', '\\', '[', ']', '{', '}', '(', ')', '<', '>', '$'];
    for l in chars.iter() {
        for r in chars.iter() {
            assert_eq!(
                rustlet::charsmush::smush(*l, *r, '$', false, mode),
                rustlet::charsmush::smush(*r, *l, '$', false, mode)
            );
        }
    }
}

#[test]
fn smush_big_x_is_order_sensitive() {
    // The big-X rule reads its arguments in order: a backslash before a
    // slash gives a Y, the opposite order gives a vertical bar.
    assert_eq!(rustlet::charsmush::smush('\\', '/', '$', false, SMUSH_BIGX), Some('Y'));
    assert_eq!(rustlet::charsmush::smush('/', '\\', '$', false, SMUSH_BIGX), Some('|'));
}

#[test]
fn universal_smushing_is_order_sensitive() {
    // In universal mode the later character wins, so order matters.
    assert_eq!(rustlet::charsmush::smush('a', 'b', '$', false, 0), Some('b'));
    assert_eq!(rustlet::charsmush::smush('b', 'a', '$', false, 0), Some('a'));
    // The hardblank yields to a visible character on either side.
    assert_eq!(rustlet::charsmush::smush('$', 'b', '$', false, 0), Some('b'));
    assert_eq!(rustlet::charsmush::smush('b', '$', '$', false, 0), Some('b'));
    // Right to left, the earlier character wins instead.
    assert_eq!(rustlet::charsmush::smush('a', 'b', '$', true, 0), Some('a'));
}
