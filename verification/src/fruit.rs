//! A small catalogue of fruits.

use vstd::prelude::*;

use crate::chars::str_eq;

verus! {

/// A fruit together with its characteristic datum.
#[derive(PartialEq, Eq, Debug)]
pub enum Fruit {
    /// Variety of apple.
    Apple(String),
    /// Ripeness level, zero through ten.
    Banana(u8),
    /// Size in centimetres.
    Orange { size: u8 },
}

/// The example fruit known under the given name, if any.
pub fn create_fruit_examples(nombre: &str) -> (r: Option<Fruit>)
    ensures
        nombre@ == "apple"@ ==> (r matches Some(f) && (f matches Fruit::Apple(v) && v@
            == "Gren Smith"@)),
        nombre@ == "banana"@ ==> r == Some(Fruit::Banana(5)),
        nombre@ == "orange"@ ==> r == Some(Fruit::Orange { size: 6 }),
        nombre@ != "apple"@ && nombre@ != "banana"@ && nombre@ != "orange"@ ==> r is None,
{
    proof {
        reveal_strlit("apple");
        reveal_strlit("banana");
        reveal_strlit("orange");
        assert("apple"@.len() == 5);
        assert("banana"@.len() == 6);
        assert("orange"@.len() == 6);
        assert("banana"@[0] == 'b');
        assert("orange"@[0] == 'o');
        assert("apple"@ != "banana"@);
        assert("apple"@ != "orange"@);
        assert("banana"@ != "orange"@);
    }
    if str_eq(nombre, "apple") {
        Some(Fruit::Apple("Gren Smith".to_owned()))
    } else if str_eq(nombre, "banana") {
        Some(Fruit::Banana(5))
    } else if str_eq(nombre, "orange") {
        Some(Fruit::Orange { size: 6 })
    } else {
        None
    }
}

} // verus!
