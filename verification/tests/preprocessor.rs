use code_analyser::preprocessor::{get_includes, get_preprocessor_definitions};


#[test]
fn test_empty_file()
{
    let input = "";
    assert_eq!(get_preprocessor_definitions(input), Vec::<String>::new());
}

#[test]
fn test_no_defines()
{
    let input = "#include <iostream>\n
                    \n
                    int main()\n
                    {\n
                        std::cout << \"Hello, World!\\n\";\n
                    }\n";
    assert_eq!(get_preprocessor_definitions(input), Vec::<String>::new());
}

#[test]
fn test_simple_define()
{
    let input = "#include <iostream>\n
                    \n
                    #define A\n
                    #define B A\n
                    #define D 123\n
                    #     define    C  \n
                    #define define\n
                    #ifdef A\n
                    #define X\\\n
                        123\n
                    #endif\n
                    int main()\n
                    {\n
                        std::cout << \"Hello, World!\\n\";\n
                    }\n";
    assert_eq!(get_preprocessor_definitions(input), vec![
        "A".to_string(),
        "B".to_string(),
        "D".to_string(),
        "C".to_string(),
        "define".to_string(),
        "X".to_string(),
    ]);
}

#[test]
fn test_includes_1()
{
    let input = "\
#include <iostream>

#include \"file.h\"
#include <string>
#include <string.h>
#include <2.h>
#include \"a/b/c.hpp\"
#include  \t  \"abc.h\"  \t  
#include  \t  <vector>   \t  
#       include    <deque>   \t  
int main()
{
    return 0;
}
";
    assert_eq!(get_includes(input), vec![
        "<iostream>".to_string(),
        "\"file.h\"".to_string(),
        "<string>".to_string(),
        "<string.h>".to_string(),
        "<2.h>".to_string(),
        "\"a/b/c.hpp\"".to_string(),
        "\"abc.h\"".to_string(),
        "<vector>".to_string(),
        "<deque>".to_string(),
    ]);
}

#[test]
fn test_includes_2()
{
    let input = "#include <iostream>\n
                    \n
                    #include \"file.h\"\n
                    #include <string>\n
                    #include <string.h>\n
                    #include <2.h>\n
                    #include \"a/b/c.hpp\"\n
                    #include  \t  \"abc.h\"  \t  \n
                    #include  \t  <vector>   \t  \n
                    #       include    <deque>   \t  \n
                    int main()\n
                    {\n
                        return 0;\n
                    }\n";
    assert_eq!(get_includes(input), vec![
        "<iostream>".to_string(),
        "\"file.h\"".to_string(),
        "<string>".to_string(),
        "<string.h>".to_string(),
        "<2.h>".to_string(),
        "\"a/b/c.hpp\"".to_string(),
        "\"abc.h\"".to_string(),
        "<vector>".to_string(),
        "<deque>".to_string(),
    ]);
}
