//! Small string, number and vector functions.

use vstd::prelude::*;

verus! {

/// Compares a guess with the secret: 0 when equal, 1 when too high, -1 when too low.
pub fn check_guess(guess: i32, secret: i32) -> (r: i32)
    ensures
        r == 0 <==> guess == secret,
        r == 1 <==> guess > secret,
        r == -1 <==> guess < secret,
{
    if guess == secret {
        0
    } else if guess > secret {
        1
    } else {
        -1
    }
}

/// Whether `n` is divisible by two.
pub fn is_even(n: i32) -> (r: bool)
    ensures
        r == (n % 2 == 0),
{
    n % 2 == 0
}


/// A copy of `s` with "World!" appended; `s` itself is left as it was.
pub fn clone_and_modify(s: &String) -> (r: String)
    ensures
        r@ == s@ + "World!"@,
{
    let mut cloned_word = s.clone();
    cloned_word.append("World!");
    cloned_word
}

/// A new string holding `s1` followed by `s2`.
pub fn concat_strings(s1: &String, s2: &String) -> (r: String)
    ensures
        r@ == s1@ + s2@,
{
    let mut result = String::from_str(s1.as_str());
    result.append(s2.as_str());
    result
}

/// A student, known here by the major alone.
pub struct Student {
    pub major: String,
}

/// Sets the student's major.
pub fn assign_major(s: &mut Student, major: String)
    ensures
        final(s).major@ == major@,
{
    s.major = major;
}

/// Every student of the collection gets the major "Computer Science".
pub fn update_majors(collection: Vec<Student>) -> (r: Vec<Student>)
    ensures
        r.len() == collection.len(),
        forall|i: int| 0 <= i < r.len() ==> #[trigger] r[i].major@ == "Computer Science"@,
{
    let mut collection = collection;
    let n = collection.len();
    let mut i: usize = 0;
    while i < n
        invariant
            n == collection.len(),
            i <= n,
            forall|j: int| 0 <= j < i ==> #[trigger] collection[j].major@ == "Computer Science"@,
        decreases n - i,
    {
        let mut student = Student { major: String::new() };
        std::mem::swap(&mut student, &mut collection[i]);
        assign_major(&mut student, String::from_str("Computer Science"));
        collection.set(i, student);
        i += 1;
    }
    collection
}

/// Applies `f` to each element, keeping the order.
pub fn process_vector<F>(vec: Vec<i32>, f: F) -> (r: Vec<i32>)
    where
        F: Fn(i32) -> i32,
    requires
        forall|i: int| 0 <= i < vec.len() ==> f.requires((#[trigger] vec[i],)),
    ensures
        r.len() == vec.len(),
        forall|i: int| 0 <= i < vec.len() ==> f.ensures((vec[i],), #[trigger] r[i]),
{
    let mut out: Vec<i32> = Vec::new();
    let mut i: usize = 0;
    while i < vec.len()
        invariant
            i <= vec.len(),
            out.len() == i,
            forall|j: int| 0 <= j < vec.len() ==> f.requires((#[trigger] vec[j],)),
            forall|j: int| 0 <= j < i ==> f.ensures((vec[j],), #[trigger] out[j]),
        decreases vec.len() - i,
    {
        let y = f(vec[i]);
        out.push(y);
        i += 1;
    }
    out
}

} // verus!
