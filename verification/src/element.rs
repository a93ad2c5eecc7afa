//! Chemical elements, identified by atomic number, and the symbol tables
//! that the SMILES lexer draws on.

use vstd::prelude::*;

verus! {

/// One of the 118 IUPAC elements, identified by its atomic number.
#[derive(Debug, PartialEq, Eq, Ord, PartialOrd, Copy, Clone, Hash, Structural)]
pub struct Element {
    pub num: u8,
}

impl Element {
    /// The element's atomic number as a spec-level value.
    pub open spec fn spec_number(self) -> u8 {
        self.num
    }

    /// Builds the element with the given atomic number; `None` outside 1..=118.
    pub fn from_atomic_number(n: u8) -> (r: Option<Element>)
        ensures
            r == if 1 <= n <= 118 {
                Some(Element { num: n })
            } else {
                None::<Element>
            },
    {
        if 1 <= n && n <= 118 {
            Some(Element { num: n })
        } else {
            None
        }
    }

    /// The element's atomic number.
    pub fn atomic_number(&self) -> (n: u8)
        ensures
            n == self.spec_number(),
    {
        self.num
    }
}

/// Atomic number of the two-letter IUPAC element symbol `ab`, if it is one.
pub open spec fn two_letter_element(a: u8, b: u8) -> Option<u8> {
    if a == 65 && b == 99 {
        Some(89u8)
    } else if a == 65 && b == 103 {
        Some(47u8)
    } else if a == 65 && b == 108 {
        Some(13u8)
    } else if a == 65 && b == 109 {
        Some(95u8)
    } else if a == 65 && b == 114 {
        Some(18u8)
    } else if a == 65 && b == 115 {
        Some(33u8)
    } else if a == 65 && b == 116 {
        Some(85u8)
    } else if a == 65 && b == 117 {
        Some(79u8)
    } else if a == 66 && b == 97 {
        Some(56u8)
    } else if a == 66 && b == 101 {
        Some(4u8)
    } else if a == 66 && b == 104 {
        Some(107u8)
    } else if a == 66 && b == 105 {
        Some(83u8)
    } else if a == 66 && b == 107 {
        Some(97u8)
    } else if a == 66 && b == 114 {
        Some(35u8)
    } else if a == 67 && b == 97 {
        Some(20u8)
    } else if a == 67 && b == 100 {
        Some(48u8)
    } else if a == 67 && b == 101 {
        Some(58u8)
    } else if a == 67 && b == 102 {
        Some(98u8)
    } else if a == 67 && b == 108 {
        Some(17u8)
    } else if a == 67 && b == 109 {
        Some(96u8)
    } else if a == 67 && b == 110 {
        Some(112u8)
    } else if a == 67 && b == 111 {
        Some(27u8)
    } else if a == 67 && b == 114 {
        Some(24u8)
    } else if a == 67 && b == 115 {
        Some(55u8)
    } else if a == 67 && b == 117 {
        Some(29u8)
    } else if a == 68 && b == 98 {
        Some(105u8)
    } else if a == 68 && b == 115 {
        Some(110u8)
    } else if a == 68 && b == 121 {
        Some(66u8)
    } else if a == 69 && b == 114 {
        Some(68u8)
    } else if a == 69 && b == 115 {
        Some(99u8)
    } else if a == 69 && b == 117 {
        Some(63u8)
    } else if a == 70 && b == 101 {
        Some(26u8)
    } else if a == 70 && b == 108 {
        Some(114u8)
    } else if a == 70 && b == 109 {
        Some(100u8)
    } else if a == 70 && b == 114 {
        Some(87u8)
    } else if a == 71 && b == 97 {
        Some(31u8)
    } else if a == 71 && b == 100 {
        Some(64u8)
    } else if a == 71 && b == 101 {
        Some(32u8)
    } else if a == 72 && b == 101 {
        Some(2u8)
    } else if a == 72 && b == 102 {
        Some(72u8)
    } else if a == 72 && b == 103 {
        Some(80u8)
    } else if a == 72 && b == 111 {
        Some(67u8)
    } else if a == 72 && b == 115 {
        Some(108u8)
    } else if a == 73 && b == 110 {
        Some(49u8)
    } else if a == 73 && b == 114 {
        Some(77u8)
    } else if a == 75 && b == 114 {
        Some(36u8)
    } else if a == 76 && b == 97 {
        Some(57u8)
    } else if a == 76 && b == 105 {
        Some(3u8)
    } else if a == 76 && b == 114 {
        Some(103u8)
    } else if a == 76 && b == 117 {
        Some(71u8)
    } else if a == 76 && b == 118 {
        Some(116u8)
    } else if a == 77 && b == 99 {
        Some(115u8)
    } else if a == 77 && b == 100 {
        Some(101u8)
    } else if a == 77 && b == 103 {
        Some(12u8)
    } else if a == 77 && b == 110 {
        Some(25u8)
    } else if a == 77 && b == 111 {
        Some(42u8)
    } else if a == 77 && b == 116 {
        Some(109u8)
    } else if a == 78 && b == 97 {
        Some(11u8)
    } else if a == 78 && b == 98 {
        Some(41u8)
    } else if a == 78 && b == 100 {
        Some(60u8)
    } else if a == 78 && b == 101 {
        Some(10u8)
    } else if a == 78 && b == 104 {
        Some(113u8)
    } else if a == 78 && b == 105 {
        Some(28u8)
    } else if a == 78 && b == 111 {
        Some(102u8)
    } else if a == 78 && b == 112 {
        Some(93u8)
    } else if a == 79 && b == 103 {
        Some(118u8)
    } else if a == 79 && b == 115 {
        Some(76u8)
    } else if a == 80 && b == 97 {
        Some(91u8)
    } else if a == 80 && b == 98 {
        Some(82u8)
    } else if a == 80 && b == 100 {
        Some(46u8)
    } else if a == 80 && b == 109 {
        Some(61u8)
    } else if a == 80 && b == 111 {
        Some(84u8)
    } else if a == 80 && b == 114 {
        Some(59u8)
    } else if a == 80 && b == 116 {
        Some(78u8)
    } else if a == 80 && b == 117 {
        Some(94u8)
    } else if a == 82 && b == 97 {
        Some(88u8)
    } else if a == 82 && b == 98 {
        Some(37u8)
    } else if a == 82 && b == 101 {
        Some(75u8)
    } else if a == 82 && b == 102 {
        Some(104u8)
    } else if a == 82 && b == 103 {
        Some(111u8)
    } else if a == 82 && b == 104 {
        Some(45u8)
    } else if a == 82 && b == 110 {
        Some(86u8)
    } else if a == 82 && b == 117 {
        Some(44u8)
    } else if a == 83 && b == 98 {
        Some(51u8)
    } else if a == 83 && b == 99 {
        Some(21u8)
    } else if a == 83 && b == 101 {
        Some(34u8)
    } else if a == 83 && b == 103 {
        Some(106u8)
    } else if a == 83 && b == 105 {
        Some(14u8)
    } else if a == 83 && b == 109 {
        Some(62u8)
    } else if a == 83 && b == 110 {
        Some(50u8)
    } else if a == 83 && b == 114 {
        Some(38u8)
    } else if a == 84 && b == 97 {
        Some(73u8)
    } else if a == 84 && b == 98 {
        Some(65u8)
    } else if a == 84 && b == 99 {
        Some(43u8)
    } else if a == 84 && b == 101 {
        Some(52u8)
    } else if a == 84 && b == 104 {
        Some(90u8)
    } else if a == 84 && b == 105 {
        Some(22u8)
    } else if a == 84 && b == 108 {
        Some(81u8)
    } else if a == 84 && b == 109 {
        Some(69u8)
    } else if a == 84 && b == 115 {
        Some(117u8)
    } else if a == 88 && b == 101 {
        Some(54u8)
    } else if a == 89 && b == 98 {
        Some(70u8)
    } else if a == 90 && b == 110 {
        Some(30u8)
    } else if a == 90 && b == 114 {
        Some(40u8)
    } else {
        None
    }
}

/// Atomic number of the one-letter IUPAC element symbol `a`, if it is one.
pub open spec fn one_letter_element(a: u8) -> Option<u8> {
    if a == 66 {
        Some(5u8)
    } else if a == 67 {
        Some(6u8)
    } else if a == 70 {
        Some(9u8)
    } else if a == 72 {
        Some(1u8)
    } else if a == 73 {
        Some(53u8)
    } else if a == 75 {
        Some(19u8)
    } else if a == 78 {
        Some(7u8)
    } else if a == 79 {
        Some(8u8)
    } else if a == 80 {
        Some(15u8)
    } else if a == 83 {
        Some(16u8)
    } else if a == 85 {
        Some(92u8)
    } else if a == 86 {
        Some(23u8)
    } else if a == 87 {
        Some(74u8)
    } else if a == 89 {
        Some(39u8)
    } else {
        None
    }
}

/// Looks up a two-letter element symbol.
pub fn lookup_two_letter_element(a: u8, b: u8) -> (r: Option<u8>)
    ensures
        r == two_letter_element(a, b),
{
    if a == 65 && b == 99 {
        Some(89u8)
    } else if a == 65 && b == 103 {
        Some(47u8)
    } else if a == 65 && b == 108 {
        Some(13u8)
    } else if a == 65 && b == 109 {
        Some(95u8)
    } else if a == 65 && b == 114 {
        Some(18u8)
    } else if a == 65 && b == 115 {
        Some(33u8)
    } else if a == 65 && b == 116 {
        Some(85u8)
    } else if a == 65 && b == 117 {
        Some(79u8)
    } else if a == 66 && b == 97 {
        Some(56u8)
    } else if a == 66 && b == 101 {
        Some(4u8)
    } else if a == 66 && b == 104 {
        Some(107u8)
    } else if a == 66 && b == 105 {
        Some(83u8)
    } else if a == 66 && b == 107 {
        Some(97u8)
    } else if a == 66 && b == 114 {
        Some(35u8)
    } else if a == 67 && b == 97 {
        Some(20u8)
    } else if a == 67 && b == 100 {
        Some(48u8)
    } else if a == 67 && b == 101 {
        Some(58u8)
    } else if a == 67 && b == 102 {
        Some(98u8)
    } else if a == 67 && b == 108 {
        Some(17u8)
    } else if a == 67 && b == 109 {
        Some(96u8)
    } else if a == 67 && b == 110 {
        Some(112u8)
    } else if a == 67 && b == 111 {
        Some(27u8)
    } else if a == 67 && b == 114 {
        Some(24u8)
    } else if a == 67 && b == 115 {
        Some(55u8)
    } else if a == 67 && b == 117 {
        Some(29u8)
    } else if a == 68 && b == 98 {
        Some(105u8)
    } else if a == 68 && b == 115 {
        Some(110u8)
    } else if a == 68 && b == 121 {
        Some(66u8)
    } else if a == 69 && b == 114 {
        Some(68u8)
    } else if a == 69 && b == 115 {
        Some(99u8)
    } else if a == 69 && b == 117 {
        Some(63u8)
    } else if a == 70 && b == 101 {
        Some(26u8)
    } else if a == 70 && b == 108 {
        Some(114u8)
    } else if a == 70 && b == 109 {
        Some(100u8)
    } else if a == 70 && b == 114 {
        Some(87u8)
    } else if a == 71 && b == 97 {
        Some(31u8)
    } else if a == 71 && b == 100 {
        Some(64u8)
    } else if a == 71 && b == 101 {
        Some(32u8)
    } else if a == 72 && b == 101 {
        Some(2u8)
    } else if a == 72 && b == 102 {
        Some(72u8)
    } else if a == 72 && b == 103 {
        Some(80u8)
    } else if a == 72 && b == 111 {
        Some(67u8)
    } else if a == 72 && b == 115 {
        Some(108u8)
    } else if a == 73 && b == 110 {
        Some(49u8)
    } else if a == 73 && b == 114 {
        Some(77u8)
    } else if a == 75 && b == 114 {
        Some(36u8)
    } else if a == 76 && b == 97 {
        Some(57u8)
    } else if a == 76 && b == 105 {
        Some(3u8)
    } else if a == 76 && b == 114 {
        Some(103u8)
    } else if a == 76 && b == 117 {
        Some(71u8)
    } else if a == 76 && b == 118 {
        Some(116u8)
    } else if a == 77 && b == 99 {
        Some(115u8)
    } else if a == 77 && b == 100 {
        Some(101u8)
    } else if a == 77 && b == 103 {
        Some(12u8)
    } else if a == 77 && b == 110 {
        Some(25u8)
    } else if a == 77 && b == 111 {
        Some(42u8)
    } else if a == 77 && b == 116 {
        Some(109u8)
    } else if a == 78 && b == 97 {
        Some(11u8)
    } else if a == 78 && b == 98 {
        Some(41u8)
    } else if a == 78 && b == 100 {
        Some(60u8)
    } else if a == 78 && b == 101 {
        Some(10u8)
    } else if a == 78 && b == 104 {
        Some(113u8)
    } else if a == 78 && b == 105 {
        Some(28u8)
    } else if a == 78 && b == 111 {
        Some(102u8)
    } else if a == 78 && b == 112 {
        Some(93u8)
    } else if a == 79 && b == 103 {
        Some(118u8)
    } else if a == 79 && b == 115 {
        Some(76u8)
    } else if a == 80 && b == 97 {
        Some(91u8)
    } else if a == 80 && b == 98 {
        Some(82u8)
    } else if a == 80 && b == 100 {
        Some(46u8)
    } else if a == 80 && b == 109 {
        Some(61u8)
    } else if a == 80 && b == 111 {
        Some(84u8)
    } else if a == 80 && b == 114 {
        Some(59u8)
    } else if a == 80 && b == 116 {
        Some(78u8)
    } else if a == 80 && b == 117 {
        Some(94u8)
    } else if a == 82 && b == 97 {
        Some(88u8)
    } else if a == 82 && b == 98 {
        Some(37u8)
    } else if a == 82 && b == 101 {
        Some(75u8)
    } else if a == 82 && b == 102 {
        Some(104u8)
    } else if a == 82 && b == 103 {
        Some(111u8)
    } else if a == 82 && b == 104 {
        Some(45u8)
    } else if a == 82 && b == 110 {
        Some(86u8)
    } else if a == 82 && b == 117 {
        Some(44u8)
    } else if a == 83 && b == 98 {
        Some(51u8)
    } else if a == 83 && b == 99 {
        Some(21u8)
    } else if a == 83 && b == 101 {
        Some(34u8)
    } else if a == 83 && b == 103 {
        Some(106u8)
    } else if a == 83 && b == 105 {
        Some(14u8)
    } else if a == 83 && b == 109 {
        Some(62u8)
    } else if a == 83 && b == 110 {
        Some(50u8)
    } else if a == 83 && b == 114 {
        Some(38u8)
    } else if a == 84 && b == 97 {
        Some(73u8)
    } else if a == 84 && b == 98 {
        Some(65u8)
    } else if a == 84 && b == 99 {
        Some(43u8)
    } else if a == 84 && b == 101 {
        Some(52u8)
    } else if a == 84 && b == 104 {
        Some(90u8)
    } else if a == 84 && b == 105 {
        Some(22u8)
    } else if a == 84 && b == 108 {
        Some(81u8)
    } else if a == 84 && b == 109 {
        Some(69u8)
    } else if a == 84 && b == 115 {
        Some(117u8)
    } else if a == 88 && b == 101 {
        Some(54u8)
    } else if a == 89 && b == 98 {
        Some(70u8)
    } else if a == 90 && b == 110 {
        Some(30u8)
    } else if a == 90 && b == 114 {
        Some(40u8)
    } else {
        None
    }
}

/// Looks up a one-letter element symbol.
pub fn lookup_one_letter_element(a: u8) -> (r: Option<u8>)
    ensures
        r == one_letter_element(a),
{
    if a == 66 {
        Some(5u8)
    } else if a == 67 {
        Some(6u8)
    } else if a == 70 {
        Some(9u8)
    } else if a == 72 {
        Some(1u8)
    } else if a == 73 {
        Some(53u8)
    } else if a == 75 {
        Some(19u8)
    } else if a == 78 {
        Some(7u8)
    } else if a == 79 {
        Some(8u8)
    } else if a == 80 {
        Some(15u8)
    } else if a == 83 {
        Some(16u8)
    } else if a == 85 {
        Some(92u8)
    } else if a == 86 {
        Some(23u8)
    } else if a == 87 {
        Some(74u8)
    } else if a == 89 {
        Some(39u8)
    } else {
        None
    }
}

} // verus!
