//! Functions: parameters, results, functions as arguments, recursion.

use core::cmp::Ordering;
use vstd::std_specs::cmp::PartialOrdSpec;
use vstd::prelude::*;

verus! {

/// The sum of two numbers.
pub fn add(a: i32, b: i32) -> (sum: i32)
    requires
        i32::MIN <= a + b <= i32::MAX,
    ensures
        sum == a + b,
{
    a + b
}

/// The product of two numbers.
pub fn multiply(a: i32, b: i32) -> (product: i32)
    requires
        i32::MIN <= a * b <= i32::MAX,
    ensures
        product == a * b,
{
    return a * b;
}

/// Twice a positive number, and zero for any other.
pub fn expression_function(x: i32) -> (y: i32)
    requires
        2 * x <= i32::MAX,
    ensures
        y == if x > 0 {
            2 * x
        } else {
            0
        },
{
    if x > 0 {
        x * 2
    } else {
        0
    }
}

/// The quotient of a division that rounds towards zero.
pub open spec fn quotient_towards_zero(a: int, b: int) -> int {
    if a >= 0 {
        a / b
    } else {
        -((-a) / b)
    }
}

/// The remainder of a division that rounds towards zero.
pub open spec fn remainder_towards_zero(a: int, b: int) -> int {
    if a >= 0 {
        a % b
    } else {
        -((-a) % b)
    }
}

/// Quotient and remainder make up the dividend; the remainder is smaller
/// than the divisor and has the sign of the dividend, and the quotient is no
/// larger than the dividend.
pub proof fn lemma_division_towards_zero(a: int, b: int)
    requires
        b != 0,
    ensures
        quotient_towards_zero(a, b) * b + remainder_towards_zero(a, b) == a,
        a >= 0 ==> 0 <= remainder_towards_zero(a, b),
        a <= 0 ==> remainder_towards_zero(a, b) <= 0,
        b > 0 ==> -b < remainder_towards_zero(a, b) < b,
        b < 0 ==> b < remainder_towards_zero(a, b) < -b,
        a >= 0 ==> -a <= quotient_towards_zero(a, b) <= a,
        a <= 0 ==> a <= quotient_towards_zero(a, b) <= -a,
{
    let m = if a >= 0 {
        a
    } else {
        -a
    };
    let q = m / b;
    let r = m % b;
    vstd::arithmetic::div_mod::lemma_fundamental_div_mod(m, b);
    assert(0 <= r && (b > 0 ==> r < b) && (b < 0 ==> r < -b));
    assert(-m <= q <= m) by (nonlinear_arith)
        requires
            m >= 0,
            b != 0,
            m == b * q + r,
            0 <= r,
            b > 0 ==> r < b,
            b < 0 ==> r < -b,
    ;
    assert((-q) * b == -(b * q)) by (nonlinear_arith);
    assert(q * b == b * q) by (nonlinear_arith);
}

/// The quotient and the remainder of a division, rounded towards zero.
pub fn divide_with_remainder(dividend: i32, divisor: i32) -> (parts: (i32, i32))
    requires
        divisor != 0,
        !(dividend == i32::MIN && divisor == -1),
    ensures
        parts.0 == quotient_towards_zero(dividend as int, divisor as int),
        parts.1 == remainder_towards_zero(dividend as int, divisor as int),
{
    proof {
        lemma_division_towards_zero(dividend as int, divisor as int);
    }
    (dividend / divisor, dividend % divisor)
}

/// The number after this one.
pub fn add_one(x: i32) -> (y: i32)
    requires
        x < i32::MAX,
    ensures
        y == x + 1,
{
    x + 1
}

/// The number times itself.
pub fn square(x: i32) -> (y: i32)
    requires
        x * x <= i32::MAX,
    ensures
        y == x * x,
{
    assert(x * x >= 0) by (nonlinear_arith);
    x * x
}

/// The sum of the numbers.
pub open spec fn sum_of(values: Seq<i32>) -> int
    decreases values.len(),
{
    if values.len() == 0 {
        0
    } else {
        sum_of(values.drop_last()) + values.last()
    }
}

/// What the operation may have answered to the first numbers of the list, one
/// result for each.
pub open spec fn results_of<F: Fn(i32) -> i32>(
    operation: F,
    numbers: Seq<i32>,
    results: Seq<i32>,
) -> bool {
    &&& results.len() <= numbers.len()
    &&& forall|i: int|
        0 <= i < results.len() ==> call_ensures(operation, (numbers[i],), #[trigger] results[i])
}

/// The sum of what the operation makes of each number.
///
/// The operation has to take every number of the list, and whatever it
/// answers, the sum has to stay within the numbers that the result can hold.
pub fn apply_operation<F>(numbers: &[i32], operation: F) -> (total: i32) where F: Fn(i32) -> i32
    requires
        forall|i: int| 0 <= i < numbers@.len() ==> call_requires(operation, (#[trigger] numbers@[i],)),
        forall|results: Seq<i32>| #[trigger]
            results_of(operation, numbers@, results) ==> i32::MIN <= sum_of(results) <= i32::MAX,
    ensures
        exists|results: Seq<i32>|
            {
                &&& #[trigger] results_of(operation, numbers@, results)
                &&& results.len() == numbers@.len()
                &&& total == sum_of(results)
            },
{
    let mut total: i32 = 0;
    let ghost mut results: Seq<i32> = Seq::empty();
    let mut i: usize = 0;
    while i < numbers.len()
        invariant
            0 <= i <= numbers.len(),
            forall|k: int|
                0 <= k < numbers@.len() ==> call_requires(operation, (#[trigger] numbers@[k],)),
            forall|results: Seq<i32>| #[trigger]
                results_of(operation, numbers@, results) ==> i32::MIN <= sum_of(results)
                    <= i32::MAX,
            results_of(operation, numbers@, results),
            results.len() == i,
            total == sum_of(results),
        decreases numbers.len() - i,
    {
        let y: i32 = operation(numbers[i]);
        proof {
            let longer = results.push(y);
            assert(longer.drop_last() == results);
            assert(longer.last() == y);
            assert(results_of(operation, numbers@, longer)) by {
                assert forall|k: int| 0 <= k < longer.len() implies call_ensures(
                    operation,
                    (numbers@[k],),
                    #[trigger] longer[k],
                ) by {
                    if k < results.len() {
                        assert(longer[k] == results[k]);
                    }
                }
            }
            results = longer;
        }
        total = total + y;
        i += 1;
    }
    total
}

/// The product of the numbers from 1 to `n`.
pub open spec fn factorial_of(n: nat) -> nat
    decreases n,
{
    if n <= 1 {
        1
    } else {
        n * factorial_of((n - 1) as nat)
    }
}

/// Factorials do not shrink as the number grows.
pub proof fn lemma_factorial_grows(m: nat, n: nat)
    requires
        m <= n,
    ensures
        1 <= factorial_of(m) <= factorial_of(n),
    decreases n,
{
    if n > 1 {
        let k = (n - 1) as nat;
        if m == n {
            lemma_factorial_grows(k, k);
        } else {
            lemma_factorial_grows(m, k);
        }
        assert(n * factorial_of(k) >= factorial_of(k)) by (nonlinear_arith)
            requires
                n >= 1,
                factorial_of(k) >= 1,
        ;
    }
}

/// The factorial of 20, the largest that 64 bits hold.
pub proof fn lemma_factorial_of_20()
    ensures
        factorial_of(20) == 2432902008176640000,
{
    assert(factorial_of(1) == 1);
    assert(factorial_of(2) == 2);
    assert(factorial_of(3) == 6);
    assert(factorial_of(4) == 24);
    assert(factorial_of(5) == 120);
    assert(factorial_of(6) == 720);
    assert(factorial_of(7) == 5040);
    assert(factorial_of(8) == 40320);
    assert(factorial_of(9) == 362880);
    assert(factorial_of(10) == 3628800);
    assert(factorial_of(11) == 39916800);
    assert(factorial_of(12) == 479001600);
    assert(factorial_of(13) == 6227020800);
    assert(factorial_of(14) == 87178291200);
    assert(factorial_of(15) == 1307674368000);
    assert(factorial_of(16) == 20922789888000);
    assert(factorial_of(17) == 355687428096000);
    assert(factorial_of(18) == 6402373705728000);
    assert(factorial_of(19) == 121645100408832000);
}

/// The factorial of `n`, for `n` up to 20.
pub fn factorial(n: u64) -> (product: u64)
    requires
        n <= 20,
    ensures
        product == factorial_of(n as nat),
    decreases n,
{
    if n <= 1 {
        1
    } else {
        let rest = factorial(n - 1);
        proof {
            lemma_factorial_grows(n as nat, 20);
            lemma_factorial_of_20();
        }
        n * rest
    }
}

/// The Fibonacci numbers: 0, 1, and from there the sum of the two before.
pub open spec fn fibonacci_of(n: nat) -> nat
    decreases n,
{
    if n == 0 {
        0
    } else if n == 1 {
        1
    } else {
        fibonacci_of((n - 1) as nat) + fibonacci_of((n - 2) as nat)
    }
}

/// The number that stands `steps` places behind `a` in a sequence that goes
/// on from `a` and `b` as the Fibonacci numbers do.
pub open spec fn fibonacci_from(a: nat, b: nat, steps: nat) -> nat
    decreases steps,
{
    if steps == 0 {
        a
    } else {
        fibonacci_from(b, a + b, (steps - 1) as nat)
    }
}

/// Going on from two neighbouring Fibonacci numbers gives Fibonacci numbers.
pub proof fn lemma_fibonacci_from(n: nat, steps: nat)
    ensures
        fibonacci_from(fibonacci_of(n), fibonacci_of(n + 1), steps) == fibonacci_of(n + steps),
    decreases steps,
{
    if steps > 0 {
        lemma_fibonacci_from(n + 1, (steps - 1) as nat);
    }
}

/// Fibonacci numbers do not shrink as the place grows.
pub proof fn lemma_fibonacci_grows(m: nat, n: nat)
    requires
        m <= n,
    ensures
        fibonacci_of(m) <= fibonacci_of(n),
    decreases n,
{
    if m < n {
        lemma_fibonacci_grows(m, (n - 1) as nat);
        if n >= 2 {
        }
    }
}

/// The Fibonacci number at place 93, the largest that 64 bits hold.
pub proof fn lemma_fibonacci_of_93()
    ensures
        fibonacci_of(93) == 12200160415121876738,
{
    lemma_fibonacci_from(0, 93);
    reveal_with_fuel(fibonacci_from, 11);
    assert(fibonacci_from(0, 1, 93) == fibonacci_from(55, 89, 83));
    assert(fibonacci_from(55, 89, 83) == fibonacci_from(6765, 10946, 73));
    assert(fibonacci_from(6765, 10946, 73) == fibonacci_from(832040, 1346269, 63));
    assert(fibonacci_from(832040, 1346269, 63) == fibonacci_from(102334155, 165580141, 53));
    assert(fibonacci_from(102334155, 165580141, 53) == fibonacci_from(12586269025, 20365011074, 43));
    assert(fibonacci_from(12586269025, 20365011074, 43) == fibonacci_from(1548008755920, 2504730781961, 33));
    assert(fibonacci_from(1548008755920, 2504730781961, 33) == fibonacci_from(190392490709135, 308061521170129, 23));
    assert(fibonacci_from(190392490709135, 308061521170129, 23) == fibonacci_from(23416728348467685, 37889062373143906, 13));
    assert(fibonacci_from(23416728348467685, 37889062373143906, 13) == fibonacci_from(2880067194370816120, 4660046610375530309, 3));
    assert(fibonacci_from(2880067194370816120, 4660046610375530309, 3) == 12200160415121876738);
}

/// The Fibonacci number at place `n`, for `n` up to 93.
pub fn fibonacci(n: u32) -> (number: u64)
    requires
        n <= 93,
    ensures
        number == fibonacci_of(n as nat),
    decreases n,
{
    match n {
        0 => 0,
        1 => 1,
        _ => {
            proof {
                lemma_fibonacci_grows(n as nat, 93);
                lemma_fibonacci_of_93();
            }
            fibonacci(n - 1) + fibonacci(n - 2)
        },
    }
}

/// The place of the item that a walk through the first `n` items keeps: it
/// starts with the first item and moves on to each item that is greater than
/// the one it holds.
pub open spec fn largest_place<T: PartialOrd>(list: Seq<T>, n: int) -> int
    decreases n,
{
    if n <= 1 {
        0
    } else {
        let held = largest_place(list, n - 1);
        if list[n - 1].partial_cmp_spec(&list[held]) == Some(Ordering::Greater) {
            n - 1
        } else {
            held
        }
    }
}

/// The item that a walk through the whole list keeps.
pub open spec fn largest_of<T: PartialOrd>(list: Seq<T>) -> T {
    list[largest_place(list, list.len() as int)]
}

/// The largest item of a list that is not empty: the first item, replaced in
/// turn by each item that is greater than the one held so far. What is
/// returned is an item of the list; where the type's comparison is the one
/// that its contracts state, it is the item that `largest_of` names.
pub fn largest<T>(list: &[T]) -> (found: &T) where T: PartialOrd
    requires
        list@.len() > 0,
    ensures
        list@.contains(*found),
        T::obeys_partial_cmp_spec() ==> *found == largest_of(list@),
{
    let mut largest = &list[0];
    let ghost mut place: int = 0;
    let ghost mut seen: int = 1;
    let mut i: usize = 1;
    while i < list.len()
        invariant
            1 <= i <= list.len(),
            seen == i,
            0 <= place < seen,
            *largest == list@[place],
            T::obeys_partial_cmp_spec() ==> place == largest_place(list@, seen),
        decreases list.len() - i,
    {
        let item = &list[i];
        if *item > *largest {
            largest = item;
            proof {
                place = seen;
            }
        }
        i += 1;
        proof {
            seen = seen + 1;
        }
    }
    largest
}

} // verus!
