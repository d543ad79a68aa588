//! Laws of the numbers in messages.

use vstd::prelude::*;

use crate::layers::purpose_text;
use crate::layers::LayerPurpose;
use crate::text::decimal;
use crate::text::digits;

verus! {

/// The number that a text of decimal digits stands for.
pub open spec fn value(text: Seq<char>) -> int
    decreases text.len(),
{
    if text.len() == 0 {
        0
    } else {
        10 * value(text.drop_last()) + (text.last() as int - 48)
    }
}

/// `text` holds decimal digits, at least one, and no needless zero in front.
pub open spec fn is_number(text: Seq<char>) -> bool {
    &&& text.len() > 0
    &&& forall|i: int| 0 <= i < text.len() ==> 48 <= (#[trigger] text[i]) as int <= 57
    &&& text.len() > 1 ==> text[0] as int != 48
}

/// The digits of a number are those that stand for it.
pub proof fn law_digits(n: nat)
    ensures
        is_number(digits(n)),
        value(digits(n)) == n,
    decreases n,
{
    reveal_with_fuel(value, 2);
    if n < 10 {
        assert(digits(n).drop_last() =~= Seq::<char>::empty());
    } else {
        law_digits(n / 10);
        let head = digits(n / 10);
        let all = digits(n);
        assert(all.drop_last() =~= head);
        assert forall|i: int| 0 <= i < all.len() implies 48 <= (#[trigger] all[i]) as int <= 57 by {
            if i < head.len() {
                assert(all[i] == head[i]);
            }
        }
        assert(all[0] == head[0]);
        if head.len() == 1 && head[0] as int == 48 {
            assert(head.drop_last() =~= Seq::<char>::empty());
            assert(value(head) == 0);
        }
    }
}

/// A number in a message is written by its digits, behind a minus sign where it is negative.
pub proof fn law_decimal(n: int)
    ensures
        n >= 0 ==> is_number(decimal(n)) && value(decimal(n)) == n,
        n < 0 ==> decimal(n).len() > 1 && decimal(n)[0] == '-' && is_number(decimal(n).skip(1))
            && value(decimal(n).skip(1)) == -n,
{
    if n >= 0 {
        law_digits(n as nat);
    } else {
        law_digits((-n) as nat);
        assert(decimal(n).skip(1) =~= digits((-n) as nat));
    }
}

/// A purpose in a message is called by its name, and one that is known by its number by that too.
pub proof fn law_purpose_text(purpose: LayerPurpose)
    ensures
        purpose is Drawing ==> purpose_text(purpose) == "Drawing"@,
        purpose is Pin ==> purpose_text(purpose) == "Pin"@,
        purpose is Label ==> purpose_text(purpose) == "Label"@,
        purpose is Obstruction ==> purpose_text(purpose) == "Obstruction"@,
        purpose is Outline ==> purpose_text(purpose) == "Outline"@,
        purpose matches LayerPurpose::Other(num) ==> purpose_text(purpose) == "Other("@ + decimal(
            num as int,
        ) + ")"@,
{
}

} // verus!
