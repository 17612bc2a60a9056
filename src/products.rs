//! Products and quantities of them.

use vstd::prelude::*;
use crate::error::Error;

verus! {

/// The characters with the Unicode property White_Space.
pub open spec fn is_white_space(c: char) -> bool {
    ||| ('\u{9}' <= c && c <= '\u{d}')
    ||| c == ' '
    ||| c == '\u{85}'
    ||| c == '\u{a0}'
    ||| c == '\u{1680}'
    ||| ('\u{2000}' <= c && c <= '\u{200a}')
    ||| c == '\u{2028}'
    ||| c == '\u{2029}'
    ||| c == '\u{202f}'
    ||| c == '\u{205f}'
    ||| c == '\u{3000}'
}

/// The text without its leading whitespace.
pub open spec fn trim_start_of(s: Seq<char>) -> Seq<char>
    decreases s.len(),
{
    if s.len() > 0 && is_white_space(s[0]) {
        trim_start_of(s.drop_first())
    } else {
        s
    }
}

/// The text without its trailing whitespace.
pub open spec fn trim_end_of(s: Seq<char>) -> Seq<char>
    decreases s.len(),
{
    if s.len() > 0 && is_white_space(s.last()) {
        trim_end_of(s.drop_last())
    } else {
        s
    }
}

/// The text without its leading and trailing whitespace.
pub open spec fn trim_of(s: Seq<char>) -> Seq<char> {
    trim_end_of(trim_start_of(s))
}

/// Relies on `str::trim`: the text without its leading and trailing
/// whitespace, whitespace being the characters with the Unicode property
/// White_Space.
#[verifier::external_body]
pub(crate) fn trimmed(s: &str) -> (r: String)
    ensures
        r@ == trim_of(s@),
{
    s.trim().to_owned()
}

/// Character-wise equality of two texts.
pub fn same_text(a: &str, b: &str) -> (r: bool)
    ensures
        r == (a@ == b@),
{
    let n = a.unicode_len();
    if n != b.unicode_len() {
        return false;
    }
    let mut i: usize = 0;
    while i < n
        invariant
            n == a@.len(),
            n == b@.len(),
            i <= n,
            a@.subrange(0, i as int) == b@.subrange(0, i as int),
        decreases n - i,
    {
        if a.get_char(i) != b.get_char(i) {
            return false;
        }
        assert(a@.subrange(0, i + 1) == a@.subrange(0, i as int).push(a@[i as int]));
        assert(b@.subrange(0, i + 1) == b@.subrange(0, i as int).push(b@[i as int]));
        i = i + 1;
    }
    assert(a@ == a@.subrange(0, n as int));
    assert(b@ == b@.subrange(0, n as int));
    true
}

/// A commodity, known by its name.
#[derive(Debug, Clone, PartialOrd, Ord, PartialEq, Eq, Hash)]
pub struct Product {
    name: String,
}

impl View for Product {
    type V = Seq<char>;

    closed spec fn view(&self) -> Seq<char> {
        self.name@
    }
}

impl Product {
    /// A product named by `name` without surrounding whitespace; the name
    /// must not be blank.
    pub fn new(name: &str) -> (r: Result<Product, Error>)
        ensures
            r is Err <==> trim_of(name@).len() == 0,
            r matches Err(e) ==> e == Error::EmptyName,
            r matches Ok(p) ==> p@ == trim_of(name@),
    {
        let cleaned = trimmed(name);
        if cleaned.unicode_len() == 0 {
            Err(Error::EmptyName)
        } else {
            Ok(Product { name: cleaned })
        }
    }

    pub fn name(&self) -> (r: &str)
        ensures
            r@ == self@,
    {
        self.name.as_str()
    }

    /// A copy of this product.
    pub fn cloned(&self) -> (r: Product)
        ensures
            r@ == self@,
    {
        Product { name: self.name.as_str().to_owned() }
    }

    /// Whether the two products are the same.
    pub fn same(&self, other: &Product) -> (r: bool)
        ensures
            r == (self@ == other@),
    {
        same_text(self.name.as_str(), other.name.as_str())
    }
}

/// An amount of a product: a count of items, or a rate.
#[derive(Debug, Clone, PartialOrd, Ord, PartialEq, Eq, Hash)]
pub struct ProductQuantity<T: Copy> {
    quantity: T,
    product: Product,
}

impl<T: Copy> View for ProductQuantity<T> {
    type V = (T, Seq<char>);

    closed spec fn view(&self) -> (T, Seq<char>) {
        (self.quantity, self.product@)
    }
}

impl<T: Copy> ProductQuantity<T> {
    pub fn new(quantity: T, product: Product) -> (r: Self)
        ensures
            r@ == (quantity, product@),
    {
        ProductQuantity { quantity, product }
    }

    /// A quantity of the product named `productname`, which must not be blank.
    pub fn with_productname(quantity: T, productname: &str) -> (r: Result<Self, Error>)
        ensures
            r is Err <==> trim_of(productname@).len() == 0,
            r matches Err(e) ==> e == Error::EmptyName,
            r matches Ok(q) ==> q@ == (quantity, trim_of(productname@)),
    {
        let product = Product::new(productname)?;
        Ok(ProductQuantity { quantity, product })
    }

    pub fn quantity(&self) -> (r: T)
        ensures
            r == self@.0,
    {
        self.quantity
    }

    pub fn product(&self) -> (r: &Product)
        ensures
            r@ == self@.1,
    {
        &self.product
    }

    pub fn name(&self) -> (r: &str)
        ensures
            r@ == self@.1,
    {
        self.product.name()
    }

    /// A copy of this quantity.
    pub fn cloned(&self) -> (r: Self)
        ensures
            r@ == self@,
    {
        ProductQuantity { quantity: self.quantity, product: self.product.cloned() }
    }
}

} // verus!
