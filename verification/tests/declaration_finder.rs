use code_analyser::declaration_finder::find_declarations;


#[test]
fn test_single_var() {
    let input = "int myVar;";
    assert_eq!(find_declarations(input), vec!["myVar"]);
}

#[test]
fn test_single_var_2() {
    let input = "int myVar = 5;";
    assert_eq!(find_declarations(input), vec!["myVar"]);
}

#[test]
fn test_simple_function_declaration() {
    let input = "int myFunc();";
    assert_eq!(find_declarations(input), vec!["myFunc"]);
}

#[test]
fn test_simple_function_definition() {
    let input = "\
int main() {\n
    return 0;\n
}\n
";
    assert_eq!(find_declarations(input), vec!["main"]);
}

#[test]
fn test_ignoring_preprocessor_directives() {
    let input = "\
#pragma once

#ifdef A
#     define B
#endif

/*
 * @brief a function returning -123
 */
int myFunc123() {
    return -123;
}
";
    assert_eq!(find_declarations(input), vec!["B", "myFunc123"]);
}

#[test]
fn test_simple_template() {
    let input = "template <typename T> T my_func(T a, const T& b);";
    assert_eq!(find_declarations(input), vec!["my_func"]);
}

#[test]
fn test_complex_template() {
    let input = "\
#include <iostream>
#include <string>
#include <vector>

template <typename T, int X, int Y = (X > 5) ? 3 : 4>
int function()
{
    return Y;
}

std::vector<int> vec1 = {1, 2, 3};
std::vector<std::vector<int>> vec2;

int main()
{
    std::cout << function<std::vector<std::vector<std::string>>, 3>() << \"\\n\";
}";
    assert_eq!(find_declarations(input), vec!["function", "vec1", "vec2", "main"]);
}

#[test]
fn test_class_forward_declaration() {
    let input = "\
struct X;
class Y;
";
    assert_eq!(find_declarations(input), vec!["X", "Y"]);
}

#[test]
fn test_class_simple_definitions() {
    let input = "\
struct X
{
};
class Y
{
    int a;
    void b();
};
";
    assert_eq!(find_declarations(input), vec!["X", "Y"]);
}

#[test]
fn test_class_inheritance_1() {
    let input = "\
class X
{
};
class Y: public X
{
    int a;
    void b();
};
";
    assert_eq!(find_declarations(input), vec!["X", "Y"]);
}

#[test]
fn test_class_inheritance_2() {
    let input = "\
class X
{
};
class Y final: public X
{
    int a;
    void b();
};
";
    assert_eq!(find_declarations(input), vec!["X", "Y"]);
}


#[test]
fn test_template_with_template_parameter() {
    let input = "\
#include <functional>
#include <string>
#include <vector>

template <class T=std::hash<std::vector<std::string>>>
class myClass
{
public:
    T a;
    T b() {
        return T();
    }
};

int main()
{
};
";
    assert_eq!(find_declarations(input), vec!["myClass", "main"]);
}

#[test]
fn declaration_finder_test_operator() {
    let input = "\
struct S
{
    std::string name;
};

bool operator==(const S& lhs, const S& rhs)
{
    return lhs.name == rhs.name;
}";
    assert_eq!(find_declarations(input), vec!["S"]);
}

#[test]
fn test_complex_types_c() {
    let input = "\
            const char a;
            const char const b;
            const const char *** const const const c;
            const static char * * * const const d;
            static const const char * * * const const e;
            f; // implicit int
            static inline __attribute__((noreturn)) g() {}
            int	h __attribute__((unused)) = 3;
            extern void exit(int)   __attribute__((noreturn));

            int main() {}
";
    assert_eq!(find_declarations(input), vec!["a", "b", "c", "d", "e", "f", "g", "h", "exit", "main"]);
}

#[test]
fn test_operator_keyword_in_c_1() {
    let input = "operator;";
    assert_eq!(find_declarations(input), vec!["operator"]);
}

#[test]
fn test_operator_keyword_in_c_2() {
    let input = "float operator;";
    assert_eq!(find_declarations(input), vec!["operator"]);
}

#[test]
fn test_operator_keyword_in_c_3() {
    let input = "const const const operator;";
    assert_eq!(find_declarations(input), vec!["operator"]);
}

#[test]
fn test_operator_keyword_in_c_4() {
    let input = "const const int operator = 123;";
    assert_eq!(find_declarations(input), vec!["operator"]);
}

#[test]
fn test_operator_keyword_in_c_5() {
    let input = "operator();";
    assert_eq!(find_declarations(input), vec!["operator"]);
}

#[test]
fn test_operator_keyword_in_c_6() {
    let input = "void operator();";
    assert_eq!(find_declarations(input), vec!["operator"]);
}

#[test]
fn test_operator_keyword_in_c_7() {
    let input = "const const const char * operator();";
    assert_eq!(find_declarations(input), vec!["operator"]);
}

#[test]
fn test_using_namespace() {
    let input = "
        #include <iostream>
        using namespace std;
        using namespace A::B::C;
        int main() {}
        ";
    assert_eq!(find_declarations(input), vec!["main"]);
}

#[test]
fn test_using_type() {
    let input = "
            #include <vector>
            #include <string>

            using myType = std::vector<std::string>;

            myType myVector = {\"aaa\", \"bbb\", \"ccc\"};

            int main() {}
        ";
    assert_eq!(find_declarations(input), vec!["myType", "myVector", "main"]);
}

#[test]
fn test_typedef() {
    let input = "
            #include <stdio.h>

            typedef int t;

            typedef struct a
            {
                int a;
            } b;

            typedef struct {
                int x;
            } c;

            struct a aa;
            b bb;
            c cc;

            void main() {
                t x = 5;
                printf(\"%d\\n\", x);
            }
        ";
    assert_eq!(find_declarations(input), vec!["t", "a", "b", "c", "a", "bb", "cc", "main"]);
}
